//! The methods of an impl, one after the other.
//!
//! A run says what is to be inferred next; [`Checker::advance_methods`] takes what
//! came of it. The impl is registered when the run is done.

use vstd::prelude::*;
use crate::ast::ImplMethod;
use crate::checker::{Checker, CheckerModel};
use crate::diagnostics::{Diag, Diagnostic};
use crate::handlers::nothing_outside;
use crate::impl_methods::{freshened, method_in_impl, next_param};
use crate::impls::{
    body_checked, find_method, method_named, methods_known, BodyModel, ImplHead, ImplHeadModel,
    ImplParts, ImplPartsModel, MethodBody,
};
use crate::infos::{MethodModel, TraitMethodInfo};
use crate::schemes::{EnvModel, TypeEnv};
use crate::sorting::ordered;
use crate::subst::acyclic;
use crate::table::{at_key, distinct_keys, put, put_then_get, Table};
use crate::types::{Ty, Type};
use crate::values::Dup;

verus! {

/// What is inferred next of an impl.
#[derive(Debug, Clone, Copy, PartialEq, Eq, Structural)]
pub enum MethodStage {
    /// A parameter of a method is bound to the expected type.
    Param(usize),
    /// The body of a method, which has the remaining type.
    Body,
    Done,
    Failed,
}

/// What came of a stage.
pub enum MethodFinding {
    Fine,
    Body(MethodBody),
    Failed(Diagnostic),
}

#[verifier::ext_equal]
pub enum MethodFindingModel {
    Fine,
    Body(BodyModel),
    Failed(Diag),
}

impl DeepView for MethodFinding {
    type V = MethodFindingModel;

    open spec fn deep_view(&self) -> MethodFindingModel {
        match self {
            MethodFinding::Fine => MethodFindingModel::Fine,
            MethodFinding::Body(body) => MethodFindingModel::Body(body.deep_view()),
            MethodFinding::Failed(d) => MethodFindingModel::Failed(d.deep_view()),
        }
    }
}

/// How far the methods of an impl have come.
pub struct MethodRun {
    /// The method that is checked.
    pub at: usize,
    pub stage: MethodStage,
    /// The types that the trait gives the parameters of the method.
    pub params: Vec<Type>,
    /// The type of the parameter that is bound next.
    pub expected: Type,
    /// The type that is left for the body.
    pub remaining: Type,
    /// The environment before the method.
    pub env: TypeEnv,
    /// The effects of the methods that are checked.
    pub effects: Table<String, Vec<String>>,
    /// Why the run failed.
    pub error: Option<Diagnostic>,
}

#[verifier::ext_equal]
pub struct MethodRunModel {
    pub at: usize,
    pub stage: MethodStage,
    pub params: Seq<Ty>,
    pub expected: Ty,
    pub remaining: Ty,
    pub env: EnvModel,
    pub effects: Seq<(Seq<char>, Seq<Seq<char>>)>,
    pub error: Option<Diag>,
}

impl DeepView for MethodRun {
    type V = MethodRunModel;

    open spec fn deep_view(&self) -> MethodRunModel {
        MethodRunModel {
            at: self.at,
            stage: self.stage,
            params: self.params.deep_view(),
            expected: self.expected.deep_view(),
            remaining: self.remaining.deep_view(),
            env: self.env.deep_view(),
            effects: self.effects.order(),
            error: self.error.deep_view(),
        }
    }
}

/// An impl as its methods see it: its head, its types and the methods of its trait.
#[verifier::ext_equal]
pub struct ImplView {
    pub head: ImplHeadModel,
    pub parts: ImplPartsModel,
    pub known: Seq<MethodModel>,
}

pub open spec fn methods_failed(run: MethodRunModel, d: Diag) -> MethodRunModel {
    MethodRunModel { stage: MethodStage::Failed, error: Some(d), ..run }
}

/// The environment with the methods of a trait bound to their own schemes.
pub open spec fn with_methods_bound(env: EnvModel, methods: Seq<MethodModel>) -> EnvModel
    decreases methods.len(),
{
    if methods.len() == 0 {
        env
    } else {
        let before = with_methods_bound(env, methods.drop_last());
        EnvModel {
            bindings: put(before.bindings, methods.last().name, methods.last().scheme),
            ..before
        }
    }
}

/// A method after its first `n` parameters are bound.
pub open spec fn after_method_params(
    c: CheckerModel,
    v: ImplView,
    methods: Seq<ImplMethod>,
    run: MethodRunModel,
    n: nat,
) -> MethodRunModel {
    let m = methods[run.at as int];
    if n >= m.params@.len() {
        MethodRunModel { stage: MethodStage::Body, ..run }
    } else {
        match next_param(
            c,
            v.head,
            m.name@,
            m.params@.len(),
            run.params,
            n as int,
            run.remaining,
        ) {
            Err(d) => methods_failed(run, d),
            Ok((expected, remaining)) => MethodRunModel {
                stage: MethodStage::Param(n as usize),
                expected,
                remaining,
                ..run
            },
        }
    }
}

/// An impl at its next method. In the bodies, the names of the methods of the trait
/// are those of the trait.
pub open spec fn method_begun(
    c: CheckerModel,
    v: ImplView,
    methods: Seq<ImplMethod>,
    run: MethodRunModel,
) -> (CheckerModel, MethodRunModel) {
    if run.at >= methods.len() {
        (c, MethodRunModel { stage: MethodStage::Done, ..run })
    } else {
        let method = method_named(v.known, methods[run.at as int].name@)->0;
        let types = method_in_impl(
            method,
            v.head.trait_name,
            v.parts.target,
            v.parts.trait_type_args,
            c.next_var as int,
        );
        let c1 = CheckerModel {
            next_var: freshened(
                method.scheme.forall,
                method.trait_param_id,
                c.next_var as int,
            ).1 as u32,
            env: with_methods_bound(c.env, v.known),
            ..c
        };
        (
            c1,
            after_method_params(
                c1,
                v,
                methods,
                MethodRunModel { params: types.0, remaining: types.1, env: c.env, ..run },
                0,
            ),
        )
    }
}

/// The methods of an impl at their beginning.
pub open spec fn methods_begun(c: CheckerModel, v: ImplView, methods: Seq<ImplMethod>) -> (
    CheckerModel,
    MethodRunModel,
) {
    method_begun(
        c,
        v,
        methods,
        MethodRunModel {
            at: 0,
            stage: MethodStage::Done,
            params: Seq::empty(),
            expected: v.parts.target,
            remaining: v.parts.target,
            env: c.env,
            effects: Seq::empty(),
            error: None,
        },
    )
}

/// An impl after the body of a method: what the method bound is gone, its effects are
/// kept, and the next method begins.
pub open spec fn method_done(
    c: CheckerModel,
    v: ImplView,
    methods: Seq<ImplMethod>,
    run: MethodRunModel,
    body: BodyModel,
) -> (CheckerModel, MethodRunModel) {
    let m = methods[run.at as int];
    let method = method_named(v.known, m.name@)->0;
    let checked = body_checked(c, v.head, method, v.parts.declared, m.body.span, body);
    match checked.1 {
        Err(d) => (checked.0, methods_failed(run, d)),
        Ok(effects) => method_begun(
            CheckerModel { env: run.env, ..checked.0 },
            v,
            methods,
            MethodRunModel {
                at: (run.at + 1) as usize,
                effects: put(run.effects, m.name@, effects),
                ..run
            },
        ),
    }
}

/// The state and the run after a stage.
pub open spec fn methods_advanced(
    c: CheckerModel,
    v: ImplView,
    methods: Seq<ImplMethod>,
    run: MethodRunModel,
    found: MethodFindingModel,
) -> (CheckerModel, MethodRunModel) {
    match (run.stage, found) {
        (MethodStage::Done, _) | (MethodStage::Failed, _) => (c, run),
        (_, MethodFindingModel::Failed(d)) => (c, methods_failed(run, d)),
        (MethodStage::Param(i), _) => (
            c,
            after_method_params(c, v, methods, run, (i + 1) as nat),
        ),
        (MethodStage::Body, MethodFindingModel::Body(body)) => method_done(
            c,
            v,
            methods,
            run,
            body,
        ),
        (MethodStage::Body, _) => (c, run),
    }
}

/// Whether a run is one of the methods of an impl.
pub open spec fn method_run_fits(methods: Seq<ImplMethod>, run: MethodRunModel) -> bool {
    &&& run.stage is Param || run.stage is Body ==> run.at < methods.len()
    &&& run.stage is Param ==> run.stage->Param_0 < methods[run.at as int].params@.len()
}

/// Whether there are variables left for what any of the methods leaves open.
pub open spec fn room_for_methods(next: u32, known: Seq<MethodModel>) -> bool {
    forall|i: int|
        0 <= i < known.len() ==> next + (#[trigger] known[i]).scheme.forall.len() <= u32::MAX
}

proof fn named_is_known(known: Seq<MethodModel>, name: Seq<char>)
    requires
        method_named(known, name) is Some,
    ensures
        exists|i: int| 0 <= i < known.len() && #[trigger] known[i] == method_named(known, name)->0,
    decreases known.len(),
{
    if method_named(known.drop_last(), name) is Some {
        named_is_known(known.drop_last(), name);
        let i = choose|i: int|
            0 <= i < known.drop_last().len() && #[trigger] known.drop_last()[i] == method_named(
                known.drop_last(),
                name,
            )->0;
        assert(known[i] == method_named(known, name)->0);
    } else {
        assert(known[known.len() - 1] == method_named(known, name)->0);
    }
}

fn bind_methods(env: &mut TypeEnv, methods: &Vec<TraitMethodInfo>)
    ensures
        final(env)@ == with_methods_bound(old(env)@, methods.deep_view()),
{
    let ghost env0 = env@;
    let ghost all = methods.deep_view();
    let mut i: usize = 0;
    assert(all.take(0) =~= Seq::empty());
    while i < methods.len()
        invariant
            i <= methods.len(),
            all == methods.deep_view(),
            env@ == with_methods_bound(env0, all.take(i as int)),
        decreases methods.len() - i,
    {
        proof {
            assert(all.take(i + 1).drop_last() =~= all.take(i as int));
            assert(all.take(i + 1).last() == all[i as int]);
        }
        env.insert(methods[i].name.clone(), methods[i].scheme.dup());
        i = i + 1;
    }
    assert(all.take(i as int) =~= all);
}

impl Checker {
    fn bind_next_method_param(
        &self,
        run: &mut MethodRun,
        head: &ImplHead,
        parts: &ImplParts,
        known: &Vec<TraitMethodInfo>,
        methods: &Vec<ImplMethod>,
        n: usize,
    )
        requires
            old(run).at < methods.len(),
            acyclic(self.sub@),
        ensures
            final(run).deep_view() == after_method_params(
                self.deep_view(),
                ImplView {
                    head: head.deep_view(),
                    parts: parts.deep_view(),
                    known: known.deep_view(),
                },
                methods@,
                old(run).deep_view(),
                n as nat,
            ),
            method_run_fits(methods@, final(run).deep_view()),
    {
        let m = &methods[run.at];
        if n >= m.params.len() {
            run.stage = MethodStage::Body;
            return;
        }
        match self.next_param_type(
            head,
            m.name.as_str(),
            m.params.len(),
            &run.params,
            n,
            &run.remaining,
        ) {
            Err(d) => {
                run.stage = MethodStage::Failed;
                run.error = Some(d);
            },
            Ok((expected, remaining)) => {
                run.stage = MethodStage::Param(n);
                run.expected = expected;
                run.remaining = remaining;
            },
        }
    }

    fn begin_method(
        &mut self,
        run: &mut MethodRun,
        head: &ImplHead,
        parts: &ImplParts,
        known: &Vec<TraitMethodInfo>,
        methods: &Vec<ImplMethod>,
    )
        requires
            methods_known(known.deep_view(), methods@),
            room_for_methods(old(self).next_var, known.deep_view()),
            acyclic(old(self).sub@),
        ensures
            (final(self).deep_view(), final(run).deep_view()) == method_begun(
                old(self).deep_view(),
                ImplView {
                    head: head.deep_view(),
                    parts: parts.deep_view(),
                    known: known.deep_view(),
                },
                methods@,
                old(run).deep_view(),
            ),
            method_run_fits(methods@, final(run).deep_view()),
    {
        if run.at >= methods.len() {
            run.stage = MethodStage::Done;
            return;
        }
        let name = methods[run.at].name.as_str();
        proof {
            assert(method_named(known.deep_view(), methods@[run.at as int].name@) is Some);
            named_is_known(known.deep_view(), name@);
        }
        if let Some(method) = find_method(known, name) {
            assert(method.scheme.forall.deep_view() =~= method.scheme.forall@);
            let (params, remaining) = self.expected_method(
                method,
                head.trait_name.as_str(),
                &parts.target,
                &parts.trait_type_args,
            );
            run.params = params;
            run.remaining = remaining;
            run.env = self.env.dup();
            bind_methods(&mut self.env, known);
            self.bind_next_method_param(run, head, parts, known, methods, 0);
        }
    }

    /// The methods of an impl at their beginning. `known` are those of its trait.
    pub fn begin_methods(
        &mut self,
        head: &ImplHead,
        parts: &ImplParts,
        known: &Vec<TraitMethodInfo>,
        methods: &Vec<ImplMethod>,
    ) -> (r: MethodRun)
        requires
            methods_known(known.deep_view(), methods@),
            room_for_methods(old(self).next_var, known.deep_view()),
            acyclic(old(self).sub@),
        ensures
            (final(self).deep_view(), r.deep_view()) == methods_begun(
                old(self).deep_view(),
                ImplView {
                    head: head.deep_view(),
                    parts: parts.deep_view(),
                    known: known.deep_view(),
                },
                methods@,
            ),
            method_run_fits(methods@, r.deep_view()),
    {
        let none: Vec<Type> = Vec::new();
        assert(none.deep_view() =~= Seq::empty());
        let mut run = MethodRun {
            at: 0,
            stage: MethodStage::Done,
            params: none,
            expected: parts.target.dup(),
            remaining: parts.target.dup(),
            env: self.env.dup(),
            effects: Table::new(),
            error: None,
        };
        self.begin_method(&mut run, head, parts, known, methods);
        run
    }

    fn finish_method(
        &mut self,
        run: &mut MethodRun,
        head: &ImplHead,
        parts: &ImplParts,
        known: &Vec<TraitMethodInfo>,
        methods: &Vec<ImplMethod>,
        body: &MethodBody,
    )
        requires
            method_run_fits(methods@, old(run).deep_view()),
            old(run).stage is Body,
            methods_known(known.deep_view(), methods@),
            room_for_methods(old(self).next_var, known.deep_view()),
            acyclic(old(self).sub@),
        ensures
            (final(self).deep_view(), final(run).deep_view()) == method_done(
                old(self).deep_view(),
                ImplView {
                    head: head.deep_view(),
                    parts: parts.deep_view(),
                    known: known.deep_view(),
                },
                methods@,
                old(run).deep_view(),
                body.deep_view(),
            ),
            method_run_fits(methods@, final(run).deep_view()),
    {
        assert(run.at < methods.len());
        let m = &methods[run.at];
        assert(method_named(known.deep_view(), methods@[run.at as int].name@) is Some);
        if let Some(method) = find_method(known, m.name.as_str()) {
            match self.check_body(head, method, &parts.declared, m.body.span, body) {
                Err(d) => {
                    run.stage = MethodStage::Failed;
                    run.error = Some(d);
                },
                Ok(effects) => {
                    run.effects.insert(m.name.clone(), effects);
                    self.env = run.env.dup();
                    run.at = run.at + 1;
                    self.begin_method(run, head, parts, known, methods);
                },
            }
        }
    }

    /// Takes what came of the stage of a run, and moves it on.
    pub fn advance_methods(
        &mut self,
        run: &mut MethodRun,
        head: &ImplHead,
        parts: &ImplParts,
        known: &Vec<TraitMethodInfo>,
        methods: &Vec<ImplMethod>,
        found: MethodFinding,
    )
        requires
            method_run_fits(methods@, old(run).deep_view()),
            methods_known(known.deep_view(), methods@),
            room_for_methods(old(self).next_var, known.deep_view()),
            acyclic(old(self).sub@),
        ensures
            (final(self).deep_view(), final(run).deep_view()) == methods_advanced(
                old(self).deep_view(),
                ImplView {
                    head: head.deep_view(),
                    parts: parts.deep_view(),
                    known: known.deep_view(),
                },
                methods@,
                old(run).deep_view(),
                found.deep_view(),
            ),
            method_run_fits(methods@, final(run).deep_view()),
    {
        match run.stage {
            MethodStage::Done | MethodStage::Failed => {},
            MethodStage::Param(i) => match found {
                MethodFinding::Failed(d) => {
                    run.stage = MethodStage::Failed;
                    run.error = Some(d);
                },
                _ => {
                    assert(i < methods@[run.at as int].params.len());
                    self.bind_next_method_param(run, head, parts, known, methods, i + 1);
                },
            },
            MethodStage::Body => match found {
                MethodFinding::Failed(d) => {
                    run.stage = MethodStage::Failed;
                    run.error = Some(d);
                },
                MethodFinding::Body(body) => {
                    self.finish_method(run, head, parts, known, methods, &body);
                },
                MethodFinding::Fine => {},
            },
        }
    }
}

/// Every method is checked in the environment in which the first one is, and the last
/// one leaves it behind.
pub proof fn methods_leave_no_bindings(
    c: CheckerModel,
    v: ImplView,
    methods: Seq<ImplMethod>,
    run: MethodRunModel,
    found: MethodFindingModel,
)
    requires
        !(run.stage is Done),
        !(methods_advanced(c, v, methods, run, found).1.stage is Failed),
    ensures
        ({
            let after = methods_advanced(c, v, methods, run, found);
            &&& after.1.env == run.env
            &&& after.1.stage is Done ==> after.0.env == run.env
        }),
{
}

/// A method has no effects that the impl does not declare.
pub proof fn methods_declare_their_effects(
    c: CheckerModel,
    v: ImplView,
    methods: Seq<ImplMethod>,
    run: MethodRunModel,
    body: BodyModel,
    i: int,
)
    requires
        run.stage is Body,
        !(methods_advanced(c, v, methods, run, MethodFindingModel::Body(body)).1.stage is Failed),
        0 <= i < ordered(body.effects.to_set()).len(),
    ensures
        v.parts.declared.contains(ordered(body.effects.to_set())[i]),
{
    nothing_outside(
        ordered(body.effects.to_set()),
        v.parts.declared,
        i,
    );
}

/// In the bodies of the methods of an impl, the names of the methods are those of the
/// trait, and other names keep their schemes.
pub proof fn methods_are_those_of_the_trait(env: EnvModel, methods: Seq<MethodModel>, i: int)
    requires
        distinct_keys(env.bindings),
        0 <= i < methods.len(),
        forall|j: int| i < j < methods.len() ==> (#[trigger] methods[j]).name != methods[i].name,
    ensures
        at_key(with_methods_bound(env, methods).bindings, methods[i].name) == Some(
            methods[i].scheme,
        ),
    decreases methods.len(),
{
    let init = methods.drop_last();
    let before = with_methods_bound(env, init);
    binding_methods_keeps_others(env, init, methods.last().name);
    put_then_get(
        before.bindings,
        methods.last().name,
        methods.last().scheme,
        methods[i].name,
    );
    if i < methods.len() - 1 {
        assert(init[i] == methods[i]);
        assert forall|j: int| i < j < init.len() implies (#[trigger] init[j]).name
            != init[i].name by {
            assert(init[j] == methods[j]);
        }
        methods_are_those_of_the_trait(env, init, i);
        assert(methods[methods.len() - 1] == methods.last());
    }
}

/// Binding the methods of a trait changes what no other name is bound to.
pub proof fn binding_methods_keeps_others(
    env: EnvModel,
    methods: Seq<MethodModel>,
    other: Seq<char>,
)
    requires
        distinct_keys(env.bindings),
    ensures
        distinct_keys(with_methods_bound(env, methods).bindings),
        (forall|j: int| 0 <= j < methods.len() ==> (#[trigger] methods[j]).name != other)
            ==> at_key(with_methods_bound(env, methods).bindings, other) == at_key(
            env.bindings,
            other,
        ),
    decreases methods.len(),
{
    if methods.len() > 0 {
        let init = methods.drop_last();
        binding_methods_keeps_others(env, init, other);
        put_then_get(
            with_methods_bound(env, init).bindings,
            methods.last().name,
            methods.last().scheme,
            other,
        );
        assert(methods[methods.len() - 1] == methods.last());
        assert(forall|j: int| 0 <= j < init.len() ==> #[trigger] init[j] == methods[j]);
    }
}

/// After the body of a method, the names that it bound are gone, its effects are kept
/// under its name, and the run is at the next method, or done after the last one.
pub proof fn methods_leave_their_effects(
    c: CheckerModel,
    v: ImplView,
    methods: Seq<ImplMethod>,
    run: MethodRunModel,
    body: BodyModel,
)
    requires
        run.stage is Body,
        run.at < methods.len() <= usize::MAX,
        distinct_keys(run.effects),
    ensures
        ({
            let after = methods_advanced(c, v, methods, run, MethodFindingModel::Body(body));
            let name = methods[run.at as int].name@;
            let found = body_checked(
                c,
                v.head,
                method_named(v.known, name)->0,
                v.parts.declared,
                methods[run.at as int].body.span,
                body,
            ).1;
            match found {
                Err(d) => after.1.stage is Failed && after.1.error == Some(d),
                Ok(effects) => {
                    &&& after.1.at == run.at + 1
                    &&& at_key(after.1.effects, name) == Some(effects)
                    &&& forall|other: Seq<char>|
                        other != name ==> #[trigger] at_key(after.1.effects, other) == at_key(
                            run.effects,
                            other,
                        )
                    &&& after.1.stage is Done <==> run.at + 1 == methods.len()
                    &&& run.at + 1 == methods.len() ==> after.0.env == run.env
                },
            }
        }),
{
    let name = methods[run.at as int].name@;
    let found = body_checked(
        c,
        v.head,
        method_named(v.known, name)->0,
        v.parts.declared,
        methods[run.at as int].body.span,
        body,
    ).1;
    if let Ok(effects) = found {
        put_then_get(run.effects, name, effects, name);
        assert forall|other: Seq<char>| other != name implies #[trigger] at_key(
            put(run.effects, name, effects),
            other,
        ) == at_key(run.effects, other) by {
            put_then_get(run.effects, name, effects, other);
        }
    }
}

} // verus!
