//! Checking a program: the passes in their order, the bodies of its functions, and
//! what becomes of the errors.

use vstd::prelude::*;
use crate::annotations::{
    has_annotation, is_annotated, Annotations, AnnotationsModel, FunAnnotation, FunAnnotationModel,
};
use crate::ast::{Decl, NodeId};
use crate::canonical_exports::{fields_fit, with_canonical_exports, with_env_binding};
use crate::checker::{
    Checker, CheckerModel, LspModel, PendingConstraint, PendingModel, RoutedModel, RoutedOrigin,
    TraitStateModel,
};
use crate::definitions::{definition_steps, plan_definitions};
use crate::diagnostics::{an_error_at, Diag, Diagnostic, Severity};
use crate::fun_types::{innermost_effect_row, innermost_row};
use crate::infos::ModuleExports;
use crate::scan::{builtin_names, is_builtin_module};
use crate::schemes::Scheme;
use crate::signatures::Constraint;
use crate::subst::{acyclic, applied};
use crate::table::{at_key, put, Table};
use crate::text::{concat3, join_text, joined, text_eq};
use crate::token::Span;
use crate::types::{EffectEntry, Entry, Type};
use crate::values::{append_values, contains_name, outcome, push_value, Dup};

verus! {

/// What is checked next: all the consecutive clauses of a function at once, any
/// other declaration by itself.
#[derive(Debug, Clone, Copy, PartialEq, Eq, Structural)]
pub enum BodyStep {
    /// The clauses from `start` up to `end`.
    Function { start: usize, end: usize },
    Other(usize),
    End,
}

/// Whether a declaration is a clause of a function.
pub open spec fn is_clause_of(decl: Decl, name: Seq<char>) -> bool {
    decl is FunBinding && decl->FunBinding_name@ == name
}

/// Where the clauses of a function end.
pub open spec fn clauses_end(program: Seq<Decl>, name: Seq<char>, i: nat) -> nat
    decreases program.len() - i,
{
    if i < program.len() && is_clause_of(program[i as int], name) {
        clauses_end(program, name, i + 1)
    } else {
        i
    }
}

/// What is checked at a place of a program.
pub open spec fn body_at(program: Seq<Decl>, i: nat) -> BodyStep {
    if i >= program.len() {
        BodyStep::End
    } else {
        match program[i as int] {
            Decl::FunBinding { name, .. } => BodyStep::Function {
                start: i as usize,
                end: clauses_end(program, name@, i) as usize,
            },
            _ => BodyStep::Other(i as usize),
        }
    }
}

fn clause_of(decl: &Decl, name: &str) -> (r: bool)
    ensures
        r == is_clause_of(*decl, name@),
{
    match decl {
        Decl::FunBinding { name: own, .. } => text_eq(own.as_str(), name),
        _ => false,
    }
}

/// What is checked at a place of a program.
pub fn next_body(program: &Vec<Decl>, i: usize) -> (r: BodyStep)
    ensures
        r == body_at(program@, i as nat),
{
    if i >= program.len() {
        return BodyStep::End;
    }
    match &program[i] {
        Decl::FunBinding { name, .. } => {
            let mut end: usize = i;
            while end < program.len() && clause_of(&program[end], name.as_str())
                invariant
                    i <= end <= program.len(),
                    clauses_end(program@, name@, i as nat) == clauses_end(
                        program@,
                        name@,
                        end as nat,
                    ),
                decreases program.len() - end,
            {
                end = end + 1;
            }
            BodyStep::Function { start: i, end }
        },
        _ => BodyStep::Other(i),
    }
}

proof fn clauses_end_bounds(program: Seq<Decl>, name: Seq<char>, i: nat)
    requires
        i <= program.len(),
    ensures
        i <= clauses_end(program, name, i) <= program.len(),
        forall|j: int| i <= j < clauses_end(program, name, i) ==> is_clause_of(
            #[trigger] program[j],
            name,
        ),
        clauses_end(program, name, i) < program.len() ==> !is_clause_of(
            program[clauses_end(program, name, i) as int],
            name,
        ),
    decreases program.len() - i,
{
    if i < program.len() && is_clause_of(program[i as int], name) {
        clauses_end_bounds(program, name, i + 1);
    }
}

/// The clauses that are checked together are those of one function: at least one, all
/// that follow one another, and no others.
pub proof fn clauses_are_checked_together(program: Seq<Decl>, i: nat)
    requires
        program.len() <= usize::MAX,
        body_at(program, i) is Function,
    ensures
        ({
            let start = body_at(program, i)->start as int;
            let end = body_at(program, i)->end as int;
            let name = program[start]->FunBinding_name@;
            &&& start == i
            &&& start < end <= program.len()
            &&& forall|j: int| start <= j < end ==> is_clause_of(#[trigger] program[j], name)
            &&& end < program.len() ==> !is_clause_of(program[end], name)
        }),
{
    let name = program[i as int]->FunBinding_name@;
    clauses_end_bounds(program, name, i);
    clauses_end_bounds(program, name, i + 1);
}

/// Where the step at a place of a program ends.
pub open spec fn after_body(program: Seq<Decl>, i: nat) -> nat {
    match body_at(program, i) {
        BodyStep::Function { end, .. } => end as nat,
        BodyStep::Other(_) => i + 1,
        BodyStep::End => i,
    }
}

proof fn bodies_move_on(program: Seq<Decl>, i: nat)
    requires
        i < program.len() <= usize::MAX,
    ensures
        i < after_body(program, i) <= program.len(),
{
    if let Decl::FunBinding { name, .. } = program[i as int] {
        clauses_end_bounds(program, name@, i);
        clauses_end_bounds(program, name@, i + 1);
    }
}

/// The places of a program at which a step begins, from a place on.
pub open spec fn body_starts(program: Seq<Decl>, i: nat) -> Seq<nat>
    decreases program.len() - i,
{
    if i >= program.len() || !(i < after_body(program, i) <= program.len()) {
        Seq::empty()
    } else {
        seq![i] + body_starts(program, after_body(program, i))
    }
}

/// Every declaration belongs to a step: no body is left out.
pub proof fn every_body_is_checked(program: Seq<Decl>, i: nat, j: nat) -> (at: int)
    requires
        program.len() <= usize::MAX,
        i <= j < program.len(),
    ensures
        0 <= at < body_starts(program, i).len(),
        body_starts(program, i)[at] <= j < after_body(program, body_starts(program, i)[at]),
    decreases program.len() - i,
{
    bodies_move_on(program, i);
    let rest = body_starts(program, after_body(program, i));
    assert(body_starts(program, i) =~= seq![i] + rest);
    if j < after_body(program, i) {
        assert(body_starts(program, i)[0] == i);
        0
    } else {
        let at = every_body_is_checked(program, after_body(program, i), j);
        assert(body_starts(program, i)[at + 1] == rest[at]);
        at + 1
    }
}

/// The errors among diagnostics.
pub open spec fn errors_among(ds: Seq<Diag>) -> Seq<Diag>
    decreases ds.len(),
{
    if ds.len() == 0 {
        Seq::empty()
    } else if ds.last().severity == Severity::Error {
        errors_among(ds.drop_last()).push(ds.last())
    } else {
        errors_among(ds.drop_last())
    }
}

/// The warnings among diagnostics.
pub open spec fn warnings_among(ds: Seq<Diag>) -> Seq<Diag>
    decreases ds.len(),
{
    if ds.len() == 0 {
        Seq::empty()
    } else if ds.last().severity == Severity::Error {
        warnings_among(ds.drop_last())
    } else {
        warnings_among(ds.drop_last()).push(ds.last())
    }
}

/// The state without the constraints under way.
pub open spec fn without_pending(c: CheckerModel) -> CheckerModel {
    CheckerModel {
        trait_state: TraitStateModel { pending_constraints: Seq::empty(), ..c.trait_state },
        ..c
    }
}

/// The state without the errors that were collected.
pub open spec fn without_errors(c: CheckerModel) -> CheckerModel {
    CheckerModel { collected_diagnostics: warnings_among(c.collected_diagnostics), ..c }
}

impl Checker {
    /// Takes the errors out of what was collected.
    pub fn drain_errors(&mut self) -> (r: Vec<Diagnostic>)
        ensures
            r.deep_view() == errors_among(old(self).deep_view().collected_diagnostics),
            final(self).deep_view() == without_errors(old(self).deep_view()),
    {
        let ghost c0 = self.deep_view();
        let ghost all = c0.collected_diagnostics;
        let mut errors: Vec<Diagnostic> = Vec::new();
        let mut rest: Vec<Diagnostic> = Vec::new();
        let mut i: usize = 0;
        assert(all.take(0) =~= Seq::empty());
        assert(errors.deep_view() =~= Seq::empty());
        assert(rest.deep_view() =~= Seq::empty());
        while i < self.collected_diagnostics.len()
            invariant
                i <= self.collected_diagnostics.len(),
                all == self.collected_diagnostics.deep_view(),
                self.deep_view() == c0,
                errors.deep_view() == errors_among(all.take(i as int)),
                rest.deep_view() == warnings_among(all.take(i as int)),
            decreases self.collected_diagnostics.len() - i,
        {
            proof {
                assert(all.take(i + 1).drop_last() =~= all.take(i as int));
                assert(all.take(i + 1).last() == all[i as int]);
                assert(all[i as int] == self.collected_diagnostics@[i as int]@);
            }
            let d = &self.collected_diagnostics[i];
            if d.severity == Severity::Error {
                push_value(&mut errors, d.dup());
            } else {
                push_value(&mut rest, d.dup());
            }
            i = i + 1;
        }
        assert(all.take(i as int) =~= all);
        self.collected_diagnostics = rest;
        errors
    }
}

/// Taking the errors out loses nothing.
pub proof fn draining_keeps_diagnostics(ds: Seq<Diag>)
    ensures
        errors_among(ds).to_multiset().add(warnings_among(ds).to_multiset()) == ds.to_multiset(),
    decreases ds.len(),
{
    broadcast use vstd::seq_lib::group_to_multiset_ensures;

    if ds.len() > 0 {
        draining_keeps_diagnostics(ds.drop_last());
        let e = errors_among(ds.drop_last()).to_multiset();
        let w = warnings_among(ds.drop_last()).to_multiset();
        assert(ds =~= ds.drop_last().push(ds.last()));
        assert(ds.to_multiset() =~= e.add(w).insert(ds.last()));
        assert(errors_among(ds).to_multiset().add(warnings_among(ds).to_multiset()) =~= e.add(
            w,
        ).insert(ds.last()));
    } else {
        assert(ds =~= Seq::empty());
        assert(errors_among(ds).to_multiset().add(warnings_among(ds).to_multiset())
            =~= ds.to_multiset());
    }
}

/// The outcome of checking a body: the state, and the errors so far. A function that
/// fails leaves no constraints behind, since they may speak of types that were never
/// found.
pub open spec fn function_done(
    c: CheckerModel,
    errors: Seq<Diag>,
    found: Seq<Diag>,
) -> (CheckerModel, Seq<Diag>) {
    let more = errors_among(c.collected_diagnostics);
    let c1 = if found.len() > 0 || more.len() > 0 {
        without_pending(c)
    } else {
        c
    };
    (without_errors(c1), errors + found + more)
}

/// The outcome of checking a declaration that is no function.
pub open spec fn other_done(
    c: CheckerModel,
    errors: Seq<Diag>,
    found: Seq<Diag>,
) -> (CheckerModel, Seq<Diag>) {
    (without_errors(c), errors + found + errors_among(c.collected_diagnostics))
}

impl Checker {
    fn end_function(&mut self, errors: &mut Vec<Diagnostic>, found: Vec<Diagnostic>)
        ensures
            (final(self).deep_view(), final(errors).deep_view()) == function_done(
                old(self).deep_view(),
                old(errors).deep_view(),
                found.deep_view(),
            ),
    {
        let ghost c0 = self.deep_view();
        let mut found = found;
        assert(found.deep_view().len() == found.len());
        let failed = found.len() > 0;
        let mut more = self.drain_errors();
        assert(more.deep_view().len() == more.len());
        if failed || more.len() > 0 {
            let none: Vec<PendingConstraint> = Vec::new();
            assert(none.deep_view() =~= Seq::empty());
            self.trait_state.pending_constraints = none;
        }
        append_values(errors, &mut found);
        append_values(errors, &mut more);
    }

    fn end_other(&mut self, errors: &mut Vec<Diagnostic>, found: Vec<Diagnostic>)
        ensures
            (final(self).deep_view(), final(errors).deep_view()) == other_done(
                old(self).deep_view(),
                old(errors).deep_view(),
                found.deep_view(),
            ),
    {
        let mut found = found;
        let mut more = self.drain_errors();
        append_values(errors, &mut found);
        append_values(errors, &mut more);
    }
}

/// The place of the first declaration of a name, among signatures or among clauses.
pub open spec fn place_of(program: Seq<Decl>, name: Seq<char>, signature: bool) -> Option<Span>
    decreases program.len(),
{
    if program.len() == 0 {
        None
    } else {
        match program.first() {
            Decl::FunSignature { name: own, span, .. } => if signature && own@ == name {
                Some(span)
            } else {
                place_of(program.drop_first(), name, signature)
            },
            Decl::FunBinding { name: own, span, .. } => if !signature && own@ == name {
                Some(span)
            } else {
                place_of(program.drop_first(), name, signature)
            },
            _ => place_of(program.drop_first(), name, signature),
        }
    }
}

fn find_place(program: &Vec<Decl>, name: &str, signature: bool) -> (r: Option<Span>)
    ensures
        r == place_of(program@, name@, signature),
{
    let mut i: usize = 0;
    assert(program@.skip(0) =~= program@);
    while i < program.len()
        invariant
            i <= program.len(),
            place_of(program@, name@, signature) == place_of(
                program@.skip(i as int),
                name@,
                signature,
            ),
        decreases program.len() - i,
    {
        proof {
            assert(program@.skip(i as int).first() == program@[i as int]);
            assert(program@.skip(i as int).drop_first() =~= program@.skip(i + 1));
        }
        match &program[i] {
            Decl::FunSignature { name: own, span, .. } => {
                if signature && text_eq(own.as_str(), name) {
                    return Some(*span);
                }
            },
            Decl::FunBinding { name: own, span, .. } => {
                if !signature && text_eq(own.as_str(), name) {
                    return Some(*span);
                }
            },
            _ => {},
        }
        i = i + 1;
    }
    None
}

/// The place at which an error about `main` is shown: its signature, or else its
/// first clause, or else the beginning of the module.
pub open spec fn main_place(program: Seq<Decl>) -> Span {
    match place_of(program, "main"@, true) {
        Some(span) => span,
        None => clause_place(program),
    }
}

/// The place of the first clause of `main`.
pub open spec fn clause_place(program: Seq<Decl>) -> Span {
    match place_of(program, "main"@, false) {
        Some(span) => span,
        None => Span { start: 0, end: 0 },
    }
}

pub open spec fn entry_name(e: Entry) -> Seq<char> {
    e.name
}

/// The effects that `main` has.
pub open spec fn main_effects(c: CheckerModel) -> Seq<Seq<char>> {
    match at_key(c.env.bindings, "main"@) {
        Some(scheme) => match innermost_row(applied(c.sub, scheme.ty)) {
            Some(row) => row.effects.map_values(|e: Entry| entry_name(e)),
            None => Seq::empty(),
        },
        None => Seq::empty(),
    }
}

pub open spec fn constraint_trait(k: Constraint) -> Seq<char> {
    k.0
}

/// The traits that `main` asks of its caller.
pub open spec fn main_traits(c: CheckerModel) -> Seq<Seq<char>> {
    match at_key(c.env.bindings, "main"@) {
        Some(scheme) => scheme.constraints.map_values(|k: Constraint| constraint_trait(k)),
        None => Seq::empty(),
    }
}

/// The errors about `main`: it has no caller that could handle its effects or supply
/// its dictionaries.
pub open spec fn main_errors(c: CheckerModel, program: Seq<Decl>) -> Seq<Diag> {
    let effects = main_effects(c);
    let traits = main_traits(c);
    let first = if effects.len() == 0 {
        Seq::empty()
    } else {
        seq![
            an_error_at(
                main_place(program),
                "`main` cannot use `needs` -- it is the entry point and there is no caller to provide handlers for {"@
                    + joined(effects, ", "@)
                    + "}. Handle effects inside `main` using `with` instead."@,
            ),
        ]
    };
    if traits.len() == 0 {
        first
    } else {
        first.push(
            an_error_at(
                clause_place(program),
                "`main` cannot have unresolved trait constraints ["@ + joined(traits, ", "@)
                    + "] -- it is the entry point and there is no caller to supply dictionaries"@,
            ),
        )
    }
}

fn names_of_entries(v: &Vec<EffectEntry>) -> (r: Vec<String>)
    ensures
        r.deep_view() == v.deep_view().map_values(|e: Entry| entry_name(e)),
{
    let mut out: Vec<String> = Vec::new();
    let mut i: usize = 0;
    while i < v.len()
        invariant
            i <= v.len(),
            out.len() == i,
            forall|j: int|
                0 <= j < i ==> #[trigger] out.deep_view()[j] == entry_name(v.deep_view()[j]),
        decreases v.len() - i,
    {
        proof {
            crate::types::entry_model_parts(v@[i as int]);
        }
        push_value(&mut out, v[i].name.clone());
        i = i + 1;
    }
    assert(out.deep_view() =~= v.deep_view().map_values(|e: Entry| entry_name(e)));
    out
}

fn traits_of_constraints(v: &Vec<(String, u32, Vec<Type>)>) -> (r: Vec<String>)
    ensures
        r.deep_view() == v.deep_view().map_values(|k: Constraint| constraint_trait(k)),
{
    let mut out: Vec<String> = Vec::new();
    let mut i: usize = 0;
    while i < v.len()
        invariant
            i <= v.len(),
            out.len() == i,
            forall|j: int|
                0 <= j < i ==> #[trigger] out.deep_view()[j] == constraint_trait(v.deep_view()[j]),
        decreases v.len() - i,
    {
        push_value(&mut out, v[i].0.clone());
        i = i + 1;
    }
    assert(out.deep_view() =~= v.deep_view().map_values(|k: Constraint| constraint_trait(k)));
    out
}

impl Checker {
    /// The errors about `main`.
    pub fn validate_main(&self, program: &Vec<Decl>) -> (r: Vec<Diagnostic>)
        requires
            acyclic(self.sub@),
        ensures
            r.deep_view() == main_errors(self.deep_view(), program@),
    {
        let mut errors: Vec<Diagnostic> = Vec::new();
        assert(errors.deep_view() =~= Seq::empty());
        let scheme = match self.env.get("main") {
            Some(scheme) => scheme,
            None => {
                return errors;
            },
        };
        if let Some(row) = innermost_effect_row(&self.sub.apply(&scheme.ty)) {
            proof {
                crate::types::row_model_parts(row);
            }
            let effects = names_of_entries(&row.effects);
            assert(effects.deep_view().len() == effects.len());
            if effects.len() != 0 {
                let place = match find_place(program, "main", true) {
                    Some(span) => span,
                    None => match find_place(program, "main", false) {
                        Some(span) => span,
                        None => Span { start: 0, end: 0 },
                    },
                };
                let listed = join_text(&effects, ", ");
                let message = concat3(
                    "`main` cannot use `needs` -- it is the entry point and there is no caller to provide handlers for {",
                    listed.as_str(),
                    "}. Handle effects inside `main` using `with` instead.",
                );
                push_value(&mut errors, Diagnostic::error_at(place, message));
            }
        }
        let ghost first = errors.deep_view();
        let traits = traits_of_constraints(&scheme.constraints);
        assert(traits.deep_view().len() == traits.len());
        if traits.len() != 0 {
            let place = match find_place(program, "main", false) {
                Some(span) => span,
                None => Span { start: 0, end: 0 },
            };
            let listed = join_text(&traits, ", ");
            let message = concat3(
                "`main` cannot have unresolved trait constraints [",
                listed.as_str(),
                "] -- it is the entry point and there is no caller to supply dictionaries",
            );
            push_value(&mut errors, Diagnostic::error_at(place, message));
        }
        assert(errors.deep_view() =~= main_errors(self.deep_view(), program@));
        errors
    }
}

/// Whether a signature stands for code from elsewhere.
pub open spec fn is_bodyless(decl: Decl, name: Seq<char>) -> bool {
    &&& decl is FunSignature
    &&& decl->FunSignature_name@ == name
    &&& is_annotated(decl->FunSignature_annotations@, "external"@) || is_annotated(
        decl->FunSignature_annotations@,
        "builtin"@,
    )
}

/// Whether a signature has a body, or may go without.
pub open spec fn has_body(program: Seq<Decl>, name: Seq<char>) -> bool {
    exists|i: int|
        0 <= i < program.len() && (is_clause_of(#[trigger] program[i], name) || is_bodyless(
            program[i],
            name,
        ))
}

fn find_body(program: &Vec<Decl>, name: &str) -> (r: bool)
    ensures
        r == has_body(program@, name@),
{
    let mut i: usize = 0;
    while i < program.len()
        invariant
            i <= program.len(),
            forall|j: int|
                0 <= j < i ==> !is_clause_of(#[trigger] program@[j], name@) && !is_bodyless(
                    program@[j],
                    name@,
                ),
        decreases program.len() - i,
    {
        let found = match &program[i] {
            Decl::FunBinding { name: own, .. } => text_eq(own.as_str(), name),
            Decl::FunSignature { name: own, annotations, .. } => {
                text_eq(own.as_str(), name) && (has_annotation(annotations, "external")
                    || has_annotation(annotations, "builtin"))
            },
            _ => false,
        };
        if found {
            assert(is_clause_of(program@[i as int], name@) || is_bodyless(
                program@[i as int],
                name@,
            ));
            return true;
        }
        i = i + 1;
    }
    false
}

/// The errors with one about a signature without a body.
pub open spec fn with_bodyless_error(
    program: Seq<Decl>,
    errors: Seq<Diag>,
    a: (Seq<char>, FunAnnotationModel),
) -> Seq<Diag> {
    if has_body(program, a.0) {
        errors
    } else {
        errors.push(
            an_error_at(
                a.1.span,
                "type annotation for `"@ + a.0 + "` has no matching function definition"@,
            ),
        )
    }
}

pub open spec fn with_bodyless_errors(
    program: Seq<Decl>,
    acc: Seq<Diag>,
    items: Seq<(Seq<char>, FunAnnotationModel)>,
) -> Seq<Diag>
    decreases items.len(),
{
    if items.len() == 0 {
        acc
    } else {
        with_bodyless_error(
            program,
            with_bodyless_errors(program, acc, items.drop_last()),
            items.last(),
        )
    }
}

fn add_bodyless_errors(
    program: &Vec<Decl>,
    acc: &mut Vec<Diagnostic>,
    items: &Table<String, FunAnnotation>,
)
    ensures
        final(acc).deep_view() == with_bodyless_errors(
            program@,
            old(acc).deep_view(),
            items.order(),
        ),
{
    let ghost a0 = acc.deep_view();
    let ghost all = items.order();
    let n = items.len();
    let mut i: usize = 0;
    assert(all.take(0) =~= Seq::empty());
    while i < n
        invariant
            i <= n,
            all == items.order(),
            n == all.len(),
            acc.deep_view() == with_bodyless_errors(program@, a0, all.take(i as int)),
        decreases n - i,
    {
        proof {
            assert(all.take(i + 1).drop_last() =~= all.take(i as int));
            assert(all.take(i + 1).last() == all[i as int]);
        }
        let name = items.key(i).as_str();
        if !find_body(program, name) {
            let message = concat3(
                "type annotation for `",
                name,
                "` has no matching function definition",
            );
            push_value(acc, Diagnostic::error_at(items.value(i).span, message));
        }
        i = i + 1;
    }
    assert(all.take(i as int) =~= all);
}

/// The passes of checking a program.
#[derive(Debug, Clone, Copy, PartialEq, Eq, Structural)]
pub enum ProgramPass {
    /// The import at a place.
    Import(usize),
    /// The modules that the program speaks of without importing them.
    LoadReferenced,
    ResolveNames,
    /// A step of registering the definitions.
    Definition(usize),
    /// The external function at a place.
    External(usize),
    /// The signature at a place.
    Signature(usize),
    PreBind,
    /// The impl at a place.
    Impl(usize),
    Supertraits,
    /// The bodies from a place on.
    Body(BodyStep),
    Constraints,
    Done,
}

/// The kinds of declarations that are gone through one by one.
#[derive(Debug, Clone, Copy, PartialEq, Eq, Structural)]
pub enum DeclKind {
    Import,
    /// A function whose code is elsewhere.
    External,
    Signature,
    Impl,
}

/// Whether a declaration is of a kind.
pub open spec fn is_of_kind(kind: DeclKind, decl: Decl) -> bool {
    match kind {
        DeclKind::Import => decl is Import,
        DeclKind::External => decl is FunSignature && is_annotated(
            decl->FunSignature_annotations@,
            "external"@,
        ),
        DeclKind::Signature => decl is FunSignature,
        DeclKind::Impl => decl is ImplDef,
    }
}

fn has_kind(kind: DeclKind, decl: &Decl) -> (r: bool)
    ensures
        r == is_of_kind(kind, *decl),
{
    match kind {
        DeclKind::Import => match decl {
            Decl::Import { .. } => true,
            _ => false,
        },
        DeclKind::External => match decl {
            Decl::FunSignature { annotations, .. } => has_annotation(annotations, "external"),
            _ => false,
        },
        DeclKind::Signature => match decl {
            Decl::FunSignature { .. } => true,
            _ => false,
        },
        DeclKind::Impl => match decl {
            Decl::ImplDef { .. } => true,
            _ => false,
        },
    }
}

/// The place of the first declaration of a kind from a place on.
pub open spec fn place_from(kind: DeclKind, program: Seq<Decl>, i: nat) -> Option<usize>
    decreases program.len() - i,
{
    if i >= program.len() {
        None
    } else if is_of_kind(kind, program[i as int]) {
        Some(i as usize)
    } else {
        place_from(kind, program, i + 1)
    }
}

fn next_place(kind: DeclKind, program: &Vec<Decl>, i: usize) -> (r: Option<usize>)
    ensures
        r == place_from(kind, program@, i as nat),
{
    let mut at: usize = i;
    while at < program.len()
        invariant
            place_from(kind, program@, i as nat) == place_from(kind, program@, at as nat),
        decreases program.len() - at,
    {
        if has_kind(kind, &program[at]) {
            return Some(at);
        }
        at = at + 1;
    }
    None
}

/// No declaration is passed over: what is found from a place on is of the kind, and
/// nothing before it is.
pub proof fn no_declaration_is_skipped(kind: DeclKind, program: Seq<Decl>, i: nat)
    requires
        program.len() <= usize::MAX,
    ensures
        match place_from(kind, program, i) {
            Some(at) => {
                &&& i <= at < program.len()
                &&& is_of_kind(kind, program[at as int])
                &&& forall|j: int| i <= j < at ==> !is_of_kind(kind, #[trigger] program[j])
            },
            None => forall|j: int|
                i <= j < program.len() ==> !is_of_kind(kind, #[trigger] program[j]),
        },
    decreases program.len() - i,
{
    if i < program.len() && !is_of_kind(kind, program[i as int]) {
        no_declaration_is_skipped(kind, program, i + 1);
    }
}

/// The first import from a place on, or what follows on the imports.
pub open spec fn import_from(program: Seq<Decl>, i: nat) -> ProgramPass {
    match place_from(DeclKind::Import, program, i) {
        Some(at) => ProgramPass::Import(at),
        None => ProgramPass::LoadReferenced,
    }
}

/// The first signature from a place on, or what follows on the signatures.
pub open spec fn signature_from(program: Seq<Decl>, i: nat) -> ProgramPass {
    match place_from(DeclKind::Signature, program, i) {
        Some(at) => ProgramPass::Signature(at),
        None => ProgramPass::PreBind,
    }
}

/// The first external function from a place on, or what follows on them.
pub open spec fn external_from(program: Seq<Decl>, i: nat) -> ProgramPass {
    match place_from(DeclKind::External, program, i) {
        Some(at) => ProgramPass::External(at),
        None => signature_from(program, 0),
    }
}

/// The step of the definitions at a place, or what follows on them.
pub open spec fn definition_from(program: Seq<Decl>, k: nat) -> ProgramPass {
    if k < definition_steps(program).len() {
        ProgramPass::Definition(k as usize)
    } else {
        external_from(program, 0)
    }
}

/// The first impl from a place on, or what follows on the impls.
pub open spec fn impl_from(program: Seq<Decl>, i: nat) -> ProgramPass {
    match place_from(DeclKind::Impl, program, i) {
        Some(at) => ProgramPass::Impl(at),
        None => ProgramPass::Supertraits,
    }
}

/// The first import from a place on, or what follows on the imports.
pub fn next_import(program: &Vec<Decl>, i: usize) -> (r: ProgramPass)
    ensures
        r == import_from(program@, i as nat),
{
    match next_place(DeclKind::Import, program, i) {
        Some(at) => ProgramPass::Import(at),
        None => ProgramPass::LoadReferenced,
    }
}

fn next_signature(program: &Vec<Decl>, i: usize) -> (r: ProgramPass)
    ensures
        r == signature_from(program@, i as nat),
{
    match next_place(DeclKind::Signature, program, i) {
        Some(at) => ProgramPass::Signature(at),
        None => ProgramPass::PreBind,
    }
}

fn next_external(program: &Vec<Decl>, i: usize) -> (r: ProgramPass)
    ensures
        r == external_from(program@, i as nat),
{
    match next_place(DeclKind::External, program, i) {
        Some(at) => ProgramPass::External(at),
        None => next_signature(program, 0),
    }
}

fn next_definition(program: &Vec<Decl>, done: Option<usize>) -> (r: ProgramPass)
    requires
        done matches Some(k) ==> k < definition_steps(program@).len(),
    ensures
        r == definition_from(
            program@,
            match done {
                Some(k) => (k + 1) as nat,
                None => 0,
            },
        ),
{
    let steps = plan_definitions(program);
    let k: usize = match done {
        Some(k) => {
            assert(k < steps.len());
            k + 1
        },
        None => 0,
    };
    if k < steps.len() {
        ProgramPass::Definition(k)
    } else {
        next_external(program, 0)
    }
}

fn next_impl(program: &Vec<Decl>, i: usize) -> (r: ProgramPass)
    ensures
        r == impl_from(program@, i as nat),
{
    match next_place(DeclKind::Impl, program, i) {
        Some(at) => ProgramPass::Impl(at),
        None => ProgramPass::Supertraits,
    }
}

/// How far the check of a program has come.
pub struct ProgramRun {
    pub pass: ProgramPass,
    pub errors: Vec<Diagnostic>,
    /// What is wrong with the impls that are checked.
    pub impl_errors: Vec<Diagnostic>,
    /// Whether a pass failed that the others depend on.
    pub failed: bool,
}

#[verifier::ext_equal]
pub struct RunModel {
    pub pass: ProgramPass,
    pub errors: Seq<Diag>,
    pub impl_errors: Seq<Diag>,
    pub failed: bool,
}

impl DeepView for ProgramRun {
    type V = RunModel;

    open spec fn deep_view(&self) -> RunModel {
        RunModel {
            pass: self.pass,
            errors: self.errors.deep_view(),
            impl_errors: self.impl_errors.deep_view(),
            failed: self.failed,
        }
    }
}

/// The errors that a pass gives back.
pub open spec fn found_errors(found: Result<(), Seq<Diag>>) -> Seq<Diag> {
    match found {
        Ok(_) => Seq::empty(),
        Err(errors) => errors,
    }
}

/// The run after a pass that the others depend on.
pub open spec fn after_needed(
    run: RunModel,
    found: Result<(), Seq<Diag>>,
    next: ProgramPass,
) -> RunModel {
    match found {
        Ok(_) => RunModel { pass: next, ..run },
        Err(errors) => RunModel {
            pass: ProgramPass::Done,
            errors: run.errors + errors,
            failed: true,
            ..run
        },
    }
}

/// The state with errors that do not stop the check.
pub open spec fn with_collected(c: CheckerModel, found: Seq<Diag>) -> CheckerModel {
    CheckerModel { collected_diagnostics: c.collected_diagnostics + found, ..c }
}

/// The run once all bodies are checked: what is wrong with `main`, and with
/// signatures that have no body.
pub open spec fn bodies_done(
    c: CheckerModel,
    program: Seq<Decl>,
    a: AnnotationsModel,
    run: RunModel,
) -> RunModel {
    let errors = run.errors + main_errors(c, program);
    RunModel {
        pass: ProgramPass::Constraints,
        errors: if c.allow_bodyless_annotations {
            errors
        } else {
            with_bodyless_errors(program, errors, a.types)
        },
        ..run
    }
}

/// The run at the bodies from a place on.
pub open spec fn at_body(
    c: CheckerModel,
    program: Seq<Decl>,
    a: AnnotationsModel,
    run: RunModel,
    i: nat,
) -> RunModel {
    match body_at(program, i) {
        BodyStep::End => bodies_done(c, program, a, run),
        step => RunModel { pass: ProgramPass::Body(step), ..run },
    }
}

/// The state and the run after an impl. What is wrong with the impls is collected once
/// all of them are checked.
pub open spec fn impl_done(
    c: CheckerModel,
    program: Seq<Decl>,
    run: RunModel,
    i: nat,
    found: Seq<Diag>,
) -> (CheckerModel, RunModel) {
    let next = impl_from(program, i + 1);
    let errors = run.impl_errors + found;
    if next == ProgramPass::Supertraits {
        (
            with_collected(c, errors),
            RunModel { pass: next, impl_errors: Seq::empty(), ..run },
        )
    } else {
        (c, RunModel { pass: next, impl_errors: errors, ..run })
    }
}

/// What follows on a pass, given what it found.
pub open spec fn run_advanced(
    c: CheckerModel,
    program: Seq<Decl>,
    a: AnnotationsModel,
    run: RunModel,
    found: Result<(), Seq<Diag>>,
) -> (CheckerModel, RunModel) {
    match run.pass {
        ProgramPass::Import(i) => (c, after_needed(
            run,
            found,
            import_from(program, (i + 1) as nat),
        )),
        ProgramPass::LoadReferenced => (
            with_collected(c, found_errors(found)),
            RunModel { pass: ProgramPass::ResolveNames, ..run },
        ),
        ProgramPass::ResolveNames => (
            c,
            after_needed(run, found, definition_from(program, 0)),
        ),
        ProgramPass::Definition(k) => (
            c,
            after_needed(run, found, definition_from(program, (k + 1) as nat)),
        ),
        ProgramPass::External(i) => (
            c,
            after_needed(run, found, external_from(program, (i + 1) as nat)),
        ),
        ProgramPass::Signature(i) => (
            c,
            after_needed(run, found, signature_from(program, (i + 1) as nat)),
        ),
        ProgramPass::PreBind => (c, after_needed(run, found, impl_from(program, 0))),
        ProgramPass::Impl(i) => impl_done(c, program, run, i as nat, found_errors(found)),
        ProgramPass::Supertraits => {
            let c1 = with_collected(c, found_errors(found));
            (c1, at_body(c1, program, a, run, 0))
        },
        ProgramPass::Body(BodyStep::Function { end, .. }) => {
            let done = function_done(c, run.errors, found_errors(found));
            (
                done.0,
                at_body(done.0, program, a, RunModel { errors: done.1, ..run }, end as nat),
            )
        },
        ProgramPass::Body(BodyStep::Other(i)) => {
            let done = other_done(c, run.errors, found_errors(found));
            (
                done.0,
                at_body(done.0, program, a, RunModel { errors: done.1, ..run }, (i + 1) as nat),
            )
        },
        ProgramPass::Body(BodyStep::End) => (c, bodies_done(c, program, a, run)),
        ProgramPass::Constraints => (
            c,
            RunModel {
                pass: ProgramPass::Done,
                errors: run.errors + found_errors(found),
                ..run
            },
        ),
        ProgramPass::Done => (c, run),
    }
}

/// The outcome of a run.
pub open spec fn run_outcome(run: RunModel) -> Result<(), Seq<Diag>> {
    if run.failed || run.errors.len() > 0 {
        Err(run.errors)
    } else {
        Ok(())
    }
}

fn errors_of(found: Result<(), Vec<Diagnostic>>) -> (r: Vec<Diagnostic>)
    ensures
        r.deep_view() == found_errors(outcome_list(found)),
{
    match found {
        Ok(_) => {
            let none: Vec<Diagnostic> = Vec::new();
            assert(none.deep_view() =~= Seq::empty());
            none
        },
        Err(errors) => errors,
    }
}

pub open spec fn outcome_list(found: Result<(), Vec<Diagnostic>>) -> Result<(), Seq<Diag>> {
    match found {
        Ok(_) => Ok(()),
        Err(errors) => Err(errors.deep_view()),
    }
}

impl ProgramRun {
    /// A run at its first pass: the first import.
    pub fn new(program: &Vec<Decl>) -> (r: Self)
        ensures
            r.deep_view() == (RunModel {
                pass: import_from(program@, 0),
                errors: Seq::empty(),
                impl_errors: Seq::empty(),
                failed: false,
            }),
    {
        let errors: Vec<Diagnostic> = Vec::new();
        let impl_errors: Vec<Diagnostic> = Vec::new();
        assert(errors.deep_view() =~= Seq::empty());
        assert(impl_errors.deep_view() =~= Seq::empty());
        ProgramRun { pass: next_import(program, 0), errors, impl_errors, failed: false }
    }

    fn advance_needed(&mut self, found: Result<(), Vec<Diagnostic>>, next: ProgramPass)
        ensures
            final(self).deep_view() == after_needed(
                old(self).deep_view(),
                outcome_list(found),
                next,
            ),
    {
        match found {
            Ok(_) => {
                self.pass = next;
            },
            Err(errors) => {
                let mut errors = errors;
                append_values(&mut self.errors, &mut errors);
                self.pass = ProgramPass::Done;
                self.failed = true;
            },
        }
    }

    fn go_to_body(&mut self, c: &Checker, program: &Vec<Decl>, annotations: &Annotations, i: usize)
        requires
            acyclic(c.sub@),
        ensures
            final(self).deep_view() == at_body(
                c.deep_view(),
                program@,
                annotations.deep_view(),
                old(self).deep_view(),
                i as nat,
            ),
    {
        match next_body(program, i) {
            BodyStep::End => {
                let mut about_main = c.validate_main(program);
                append_values(&mut self.errors, &mut about_main);
                if !c.allow_bodyless_annotations {
                    add_bodyless_errors(program, &mut self.errors, &annotations.types);
                }
                self.pass = ProgramPass::Constraints;
            },
            step => {
                self.pass = ProgramPass::Body(step);
            },
        }
    }

    /// The outcome of the run: its errors, if there are any.
    pub fn finish(self) -> (r: Result<(), Vec<Diagnostic>>)
        ensures
            outcome_list(r) == run_outcome(self.deep_view()),
    {
        assert(self.errors.deep_view().len() == self.errors.len());
        if self.failed || self.errors.len() > 0 {
            Err(self.errors)
        } else {
            Ok(())
        }
    }
}

/// Whether the place of a run is one in the program.
pub open spec fn run_fits(run: RunModel, program: Seq<Decl>) -> bool {
    match run.pass {
        ProgramPass::Import(i) => i < program.len(),
        ProgramPass::Definition(k) => k < definition_steps(program).len() <= usize::MAX,
        ProgramPass::External(i) => i < program.len(),
        ProgramPass::Signature(i) => i < program.len(),
        ProgramPass::Impl(i) => i < program.len(),
        ProgramPass::Body(BodyStep::Other(i)) => i < program.len(),
        _ => true,
    }
}

/// The passes over declarations of a kind are at declarations of the program.
proof fn places_fit(program: Seq<Decl>, i: nat)
    requires
        program.len() <= usize::MAX,
    ensures
        import_from(program, i) matches ProgramPass::Import(at) ==> at < program.len(),
        signature_from(program, i) matches ProgramPass::Signature(at) ==> at < program.len(),
        external_from(program, i) matches ProgramPass::External(at) ==> at < program.len(),
        external_from(program, i) matches ProgramPass::Signature(at) ==> at < program.len(),
        impl_from(program, i) matches ProgramPass::Impl(at) ==> at < program.len(),
{
    no_declaration_is_skipped(DeclKind::Import, program, i);
    no_declaration_is_skipped(DeclKind::Signature, program, i);
    no_declaration_is_skipped(DeclKind::Signature, program, 0);
    no_declaration_is_skipped(DeclKind::External, program, i);
    no_declaration_is_skipped(DeclKind::Impl, program, i);
}

proof fn body_fits(
    c: CheckerModel,
    program: Seq<Decl>,
    a: AnnotationsModel,
    run: RunModel,
    i: nat,
)
    requires
        program.len() <= usize::MAX,
    ensures
        run_fits(at_body(c, program, a, run, i), program),
{
    assert(body_at(program, i) matches BodyStep::Other(at) ==> at < program.len());
}

/// A run stays within its program.
pub proof fn runs_stay_within(
    c: CheckerModel,
    program: Seq<Decl>,
    a: AnnotationsModel,
    run: RunModel,
    found: Result<(), Seq<Diag>>,
)
    requires
        program.len() <= usize::MAX,
        definition_steps(program).len() <= usize::MAX,
        run_fits(run, program),
    ensures
        run_fits(run_advanced(c, program, a, run, found).1, program),
{
    places_fit(program, 0);
    match run.pass {
        ProgramPass::Import(i) => {
            places_fit(program, (i + 1) as nat);
        },
        ProgramPass::External(i) => {
            places_fit(program, (i + 1) as nat);
        },
        ProgramPass::Signature(i) => {
            places_fit(program, (i + 1) as nat);
        },
        ProgramPass::Impl(i) => {
            places_fit(program, (i + 1) as nat);
        },
        ProgramPass::Supertraits => {
            body_fits(with_collected(c, found_errors(found)), program, a, run, 0);
        },
        ProgramPass::Body(BodyStep::Function { end, .. }) => {
            let done = function_done(c, run.errors, found_errors(found));
            body_fits(done.0, program, a, RunModel { errors: done.1, ..run }, end as nat);
        },
        ProgramPass::Body(BodyStep::Other(i)) => {
            let done = other_done(c, run.errors, found_errors(found));
            body_fits(done.0, program, a, RunModel { errors: done.1, ..run }, (i + 1) as nat);
        },
        _ => {},
    }
}

impl Checker {
    fn end_impl(
        &mut self,
        run: &mut ProgramRun,
        program: &Vec<Decl>,
        i: usize,
        found: Vec<Diagnostic>,
    )
        requires
            i < program.len(),
        ensures
            (final(self).deep_view(), final(run).deep_view()) == impl_done(
                old(self).deep_view(),
                program@,
                old(run).deep_view(),
                i as nat,
                found.deep_view(),
            ),
    {
        let mut found = found;
        append_values(&mut run.impl_errors, &mut found);
        run.pass = next_impl(program, i + 1);
        if let ProgramPass::Supertraits = run.pass {
            append_values(&mut self.collected_diagnostics, &mut run.impl_errors);
            assert(run.impl_errors.deep_view() =~= Seq::empty());
        }
    }

    /// What follows on a pass of checking a program. The pass at hand was performed, and
    /// `found` is what it found.
    pub fn check_program_inner(
        &mut self,
        run: &mut ProgramRun,
        program: &Vec<Decl>,
        annotations: &Annotations,
        found: Result<(), Vec<Diagnostic>>,
    )
        requires
            acyclic(old(self).sub@),
            run_fits(old(run).deep_view(), program@),
        ensures
            (final(self).deep_view(), final(run).deep_view()) == run_advanced(
                old(self).deep_view(),
                program@,
                annotations.deep_view(),
                old(run).deep_view(),
                outcome_list(found),
            ),
            run_fits(final(run).deep_view(), program@),
    {
        let n: usize = program.len();
        let steps = plan_definitions(program);
        proof {
            assert(program@.len() == n);
            assert(definition_steps(program@).len() == steps.len());
            runs_stay_within(
                self.deep_view(),
                program@,
                annotations.deep_view(),
                run.deep_view(),
                outcome_list(found),
            );
        }
        match run.pass {
            ProgramPass::Import(i) => {
                run.advance_needed(found, next_import(program, i + 1));
            },
            ProgramPass::LoadReferenced => {
                let mut errors = errors_of(found);
                append_values(&mut self.collected_diagnostics, &mut errors);
                run.pass = ProgramPass::ResolveNames;
            },
            ProgramPass::ResolveNames => {
                run.advance_needed(found, next_definition(program, None));
            },
            ProgramPass::Definition(k) => {
                run.advance_needed(found, next_definition(program, Some(k)));
            },
            ProgramPass::External(i) => {
                run.advance_needed(found, next_external(program, i + 1));
            },
            ProgramPass::Signature(i) => {
                run.advance_needed(found, next_signature(program, i + 1));
            },
            ProgramPass::PreBind => {
                run.advance_needed(found, next_impl(program, 0));
            },
            ProgramPass::Impl(i) => {
                self.end_impl(run, program, i, errors_of(found));
            },
            ProgramPass::Supertraits => {
                let mut errors = errors_of(found);
                append_values(&mut self.collected_diagnostics, &mut errors);
                run.go_to_body(self, program, annotations, 0);
            },
            ProgramPass::Body(BodyStep::Function { end, .. }) => {
                self.end_function(&mut run.errors, errors_of(found));
                run.go_to_body(self, program, annotations, end);
            },
            ProgramPass::Body(BodyStep::Other(i)) => {
                self.end_other(&mut run.errors, errors_of(found));
                run.go_to_body(self, program, annotations, i + 1);
            },
            ProgramPass::Body(BodyStep::End) => {
                let mut about_main = self.validate_main(program);
                append_values(&mut run.errors, &mut about_main);
                if !self.allow_bodyless_annotations {
                    add_bodyless_errors(program, &mut run.errors, &annotations.types);
                }
                run.pass = ProgramPass::Constraints;
            },
            ProgramPass::Constraints => {
                let mut errors = errors_of(found);
                append_values(&mut run.errors, &mut errors);
                run.pass = ProgramPass::Done;
            },
            ProgramPass::Done => {},
        }
    }

    /// Ends the check of a program: its errors join what was collected, `warnings`
    /// follow them, and all of it is the result.
    pub fn check_program(
        &mut self,
        found: Result<(), Vec<Diagnostic>>,
        warnings: Vec<Diagnostic>,
    ) -> (r:
        Vec<Diagnostic>)
        ensures
            r.deep_view() == final(self).deep_view().collected_diagnostics,
            final(self).deep_view() == with_collected(
                with_collected(old(self).deep_view(), found_errors(outcome_list(found))),
                warnings.deep_view(),
            ),
    {
        self.check_program_with_result(found, warnings)
    }

    /// Ends the check of a program for an editor.
    pub fn check_program_lsp(
        &mut self,
        found: Result<(), Vec<Diagnostic>>,
        warnings: Vec<Diagnostic>,
    ) -> (r:
        Vec<Diagnostic>)
        ensures
            r.deep_view() == final(self).deep_view().collected_diagnostics,
            final(self).deep_view() == with_collected(
                with_collected(old(self).deep_view(), found_errors(outcome_list(found))),
                warnings.deep_view(),
            ),
    {
        self.check_program_with_result(found, warnings)
    }

    fn check_program_with_result(
        &mut self,
        found: Result<(), Vec<Diagnostic>>,
        warnings: Vec<Diagnostic>,
    ) -> (r: Vec<Diagnostic>)
        ensures
            r.deep_view() == final(self).deep_view().collected_diagnostics,
            final(self).deep_view() == with_collected(
                with_collected(old(self).deep_view(), found_errors(outcome_list(found))),
                warnings.deep_view(),
            ),
    {
        let mut errors = errors_of(found);
        let mut warnings = warnings;
        append_values(&mut self.collected_diagnostics, &mut errors);
        append_values(&mut self.collected_diagnostics, &mut warnings);
        self.collected_diagnostics.dup()
    }

    /// Binds a top-level `let` whose type was found and generalized.
    pub fn check_let(&mut self, id: NodeId, name: &str, name_span: Span, scheme: Scheme)
        ensures
            final(self).deep_view() == (CheckerModel {
                env: with_env_binding(
                    old(self).deep_view().env,
                    name@,
                    scheme.deep_view(),
                    Some(id),
                ),
                lsp: LspModel {
                    node_spans: put(old(self).deep_view().lsp.node_spans, id, name_span),
                    ..old(self).deep_view().lsp
                },
                ..old(self).deep_view()
            }),
    {
        self.env.insert_with_def(name.to_owned(), scheme, id);
        self.lsp.node_spans.insert(id, name_span);
    }

    /// Whether a module that the program speaks of without importing it is loaded:
    /// `in_project` tells whether the project has it.
    pub fn should_auto_load(&self, module: &str, in_project: bool) -> (r: bool)
        ensures
            r == (!self.deep_view().registered_canonical.contains(module@)
                && (builtin_names().contains(module@) || in_project)),
    {
        !contains_name(&self.registered_canonical, module) && (is_builtin_module(module)
            || in_project)
    }

    /// A module that the program speaks of is loaded, or is not.
    pub fn auto_load_referenced_module(
        &mut self,
        module: &str,
        loaded: Result<&ModuleExports, Diagnostic>,
    )
        requires
            loaded matches Ok(exports) ==> fields_fit(exports.deep_view()),
        ensures
            final(self).deep_view() == match loaded {
                Ok(exports) => with_canonical_exports(
                    old(self).deep_view(),
                    exports.deep_view(),
                    module@,
                    None,
                    Seq::empty(),
                ),
                Err(d) => with_collected(old(self).deep_view(), seq![d@]),
            },
    {
        match loaded {
            Ok(exports) => {
                let none: Vec<crate::ast::ExposedItem> = Vec::new();
                assert(none@ =~= Seq::empty());
                self.register_module_canonical_exports(exports, module, None, &none);
            },
            Err(d) => {
                let ghost before = self.collected_diagnostics.deep_view();
                push_value(&mut self.collected_diagnostics, d);
                assert(self.collected_diagnostics.deep_view() =~= before + seq![d@]);
            },
        }
    }
}

/// No error that a pass finds is lost: it is among the errors of the run or of its
/// impls, or among what was collected.
pub proof fn no_error_is_lost(
    c: CheckerModel,
    program: Seq<Decl>,
    a: AnnotationsModel,
    run: RunModel,
    found: Seq<Diag>,
    e: Diag,
)
    requires
        run.pass != ProgramPass::Done,
        run.pass != ProgramPass::Body(BodyStep::End),
        found.contains(e),
    ensures
        ({
            let next = run_advanced(c, program, a, run, Err(found));
            next.1.errors.contains(e) || next.1.impl_errors.contains(e)
                || next.0.collected_diagnostics.contains(e)
        }),
{
    let next = run_advanced(c, program, a, run, Err(found));
    let i = choose|i: int| 0 <= i < found.len() && found[i] == e;
    let in_run = run.errors + found;
    assert(in_run[run.errors.len() + i] == e);
    let in_state = c.collected_diagnostics + found;
    assert(in_state[c.collected_diagnostics.len() + i] == e);
    let in_impls = run.impl_errors + found;
    assert(in_impls[run.impl_errors.len() + i] == e);
    let of_impls = c.collected_diagnostics + in_impls;
    assert(of_impls[c.collected_diagnostics.len() + run.impl_errors.len() + i] == e);
    match run.pass {
        ProgramPass::Body(BodyStep::Function { end, .. }) => {
            let done = function_done(c, run.errors, found);
            assert(done.1[run.errors.len() + i] == e);
            body_keeps_errors(
                done.0,
                program,
                a,
                RunModel { errors: done.1, ..run },
                end as nat,
                e,
            );
        },
        ProgramPass::Body(BodyStep::Other(at)) => {
            let done = other_done(c, run.errors, found);
            assert(done.1[run.errors.len() + i] == e);
            body_keeps_errors(
                done.0,
                program,
                a,
                RunModel { errors: done.1, ..run },
                (at + 1) as nat,
                e,
            );
        },
        _ => {},
    }
}

proof fn body_keeps_errors(
    c: CheckerModel,
    program: Seq<Decl>,
    a: AnnotationsModel,
    run: RunModel,
    i: nat,
    e: Diag,
)
    requires
        run.errors.contains(e),
    ensures
        at_body(c, program, a, run, i).errors.contains(e),
{
    let about_main = run.errors + main_errors(c, program);
    let at = choose|at: int| 0 <= at < run.errors.len() && run.errors[at] == e;
    assert(about_main[at] == e);
    bodyless_keeps_errors(program, about_main, a.types, e);
}

proof fn bodyless_keeps_errors(
    program: Seq<Decl>,
    errors: Seq<Diag>,
    items: Seq<(Seq<char>, FunAnnotationModel)>,
    e: Diag,
)
    requires
        errors.contains(e),
    ensures
        with_bodyless_errors(program, errors, items).contains(e),
    decreases items.len(),
{
    if items.len() > 0 {
        bodyless_keeps_errors(program, errors, items.drop_last(), e);
        let before = with_bodyless_errors(program, errors, items.drop_last());
        let at = choose|at: int| 0 <= at < before.len() && before[at] == e;
        assert(with_bodyless_errors(program, errors, items)[at] == e);
    }
}

/// A pass that the others depend on ends the run when it fails.
pub proof fn needed_passes_end_the_run(
    c: CheckerModel,
    program: Seq<Decl>,
    a: AnnotationsModel,
    run: RunModel,
    found: Seq<Diag>,
)
    requires
        match run.pass {
            ProgramPass::Import(_) => true,
            ProgramPass::Definition(_) => true,
            ProgramPass::External(_) => true,
            ProgramPass::Signature(_) => true,
            _ => false,
        },
    ensures
        ({
            let next = run_advanced(c, program, a, run, Err(found)).1;
            &&& next.pass == ProgramPass::Done
            &&& run_outcome(next) == Err::<(), Seq<Diag>>(run.errors + found)
        }),
{
}

/// The state with the origin of the constraints that came up since there were
/// `before` of them.
pub open spec fn with_origins(
    origins: Seq<(NodeId, RoutedModel)>,
    pending: Seq<PendingModel>,
    before: nat,
    origin: RoutedModel,
) -> Seq<(NodeId, RoutedModel)>
    decreases pending.len(),
{
    if pending.len() <= before {
        origins
    } else {
        put(
            with_origins(origins, pending.drop_last(), before, origin),
            pending.last().node_id,
            origin,
        )
    }
}

impl Checker {
    /// Notes where an impl names its trait and its target.
    pub fn record_impl_names(
        &mut self,
        trait_name: &str,
        trait_span: Span,
        target: &str,
        target_span: Span,
    )
        ensures
            final(self).deep_view() == (CheckerModel {
                lsp: LspModel {
                    type_references: old(self).deep_view().lsp.type_references.push(
                        (trait_span, trait_name@),
                    ).push((target_span, target@)),
                    ..old(self).deep_view().lsp
                },
                ..old(self).deep_view()
            }),
    {
        push_value(&mut self.lsp.type_references, (trait_span, trait_name.to_owned()));
        push_value(&mut self.lsp.type_references, (target_span, target.to_owned()));
    }

    /// Tags the constraints that a derived impl brought up, those after the first
    /// `before`, with its deriving clause.
    pub fn route_new_constraints(&mut self, before: usize, origin: &RoutedOrigin)
        ensures
            final(self).deep_view() == (CheckerModel {
                trait_state: TraitStateModel {
                    routed_constraint_origins: with_origins(
                        old(self).deep_view().trait_state.routed_constraint_origins,
                        old(self).deep_view().trait_state.pending_constraints,
                        before as nat,
                        origin.deep_view(),
                    ),
                    ..old(self).deep_view().trait_state
                },
                ..old(self).deep_view()
            }),
    {
        let ghost c0 = self.deep_view();
        let ghost o0 = c0.trait_state.routed_constraint_origins;
        let ghost all = c0.trait_state.pending_constraints;
        assert(all.len() == self.trait_state.pending_constraints.len());
        let mut i: usize = before;
        if i >= self.trait_state.pending_constraints.len() {
            return;
        }
        while i < self.trait_state.pending_constraints.len()
            invariant
                before <= i <= self.trait_state.pending_constraints.len(),
                all == self.trait_state.pending_constraints.deep_view(),
                self.deep_view() == (CheckerModel {
                    trait_state: TraitStateModel {
                        routed_constraint_origins: with_origins(
                            o0,
                            all.take(i as int),
                            before as nat,
                            origin.deep_view(),
                        ),
                        ..c0.trait_state
                    },
                    ..c0
                }),
            decreases self.trait_state.pending_constraints.len() - i,
        {
            proof {
                assert(all.take(i + 1).drop_last() =~= all.take(i as int));
                assert(all.take(i + 1).last() == all[i as int]);
                assert(all[i as int]
                    == self.trait_state.pending_constraints@[i as int].deep_view());
            }
            let id = self.trait_state.pending_constraints[i].node_id;
            self.trait_state.routed_constraint_origins.insert(id, origin.dup());
            i = i + 1;
        }
        assert(all.take(i as int) =~= all);
    }
}

/// The turns of a run: the state and the annotations before each pass is taken, the
/// run, and what the pass found. The passes change the state between two turns.
pub type ProgramTurns = Seq<
    (CheckerModel, AnnotationsModel, RunModel, Result<(), Seq<Diag>>),
>;

/// The state and the run after a turn.
pub open spec fn after_turn(program: Seq<Decl>, turns: ProgramTurns, k: int) -> (
    CheckerModel,
    RunModel,
) {
    run_advanced(turns[k].0, program, turns[k].1, turns[k].2, turns[k].3)
}

/// Whether turns follow one another.
pub open spec fn are_program_turns(program: Seq<Decl>, turns: ProgramTurns) -> bool {
    &&& turns.len() > 0
    &&& forall|k: int|
        0 <= k < turns.len() - 1 ==> #[trigger] turns[k + 1].2 == after_turn(program, turns, k).1
}

/// Whether the last of the bodies is checked in a turn.
pub open spec fn ends_bodies(turns: ProgramTurns, k: int) -> bool {
    &&& 0 <= k < turns.len() - 1
    &&& turns[k].2.pass != ProgramPass::Constraints
    &&& turns[k + 1].2.pass == ProgramPass::Constraints
}

proof fn bodyless_errors_grow(
    program: Seq<Decl>,
    acc: Seq<Diag>,
    items: Seq<(Seq<char>, FunAnnotationModel)>,
)
    ensures
        acc.len() <= with_bodyless_errors(program, acc, items).len(),
        with_bodyless_errors(program, acc, items).len() == acc.len() ==> forall|i: int|
            0 <= i < items.len() ==> has_body(program, (#[trigger] items[i]).0),
    decreases items.len(),
{
    if items.len() > 0 {
        let init = items.drop_last();
        bodyless_errors_grow(program, acc, init);
        if with_bodyless_errors(program, acc, items).len() == acc.len() {
            assert forall|i: int| 0 <= i < items.len() implies has_body(
                program,
                (#[trigger] items[i]).0,
            ) by {
                if i < init.len() {
                    assert(init[i] == items[i]);
                }
            }
        }
    }
}

/// Errors of a run stay, and a run that failed stays failed.
proof fn turn_keeps_errors(
    c: CheckerModel,
    program: Seq<Decl>,
    a: AnnotationsModel,
    run: RunModel,
    found: Result<(), Seq<Diag>>,
)
    ensures
        run.errors.len() <= run_advanced(c, program, a, run, found).1.errors.len(),
        run.failed ==> run_advanced(c, program, a, run, found).1.failed,
{
    assert forall|now: CheckerModel, errors: Seq<Diag>|
        errors.len() <= (#[trigger] with_bodyless_errors(
            program,
            errors + main_errors(now, program),
            a.types,
        )).len() by {
        bodyless_errors_grow(program, errors + main_errors(now, program), a.types);
    }
}

proof fn turns_keep_errors(program: Seq<Decl>, turns: ProgramTurns, i: int, k: int)
    requires
        are_program_turns(program, turns),
        0 <= i <= k < turns.len(),
    ensures
        turns[i].2.errors.len() <= turns[k].2.errors.len(),
        turns[i].2.failed ==> turns[k].2.failed,
    decreases k - i,
{
    if i < k {
        turns_keep_errors(program, turns, i, k - 1);
        let t = turns[k - 1];
        assert(turns[(k - 1) + 1].2 == after_turn(program, turns, k - 1).1);
        turn_keeps_errors(t.0, program, t.1, t.2, t.3);
    }
}

/// A run whose outcome is fine found nothing wrong with `main` once the last of the
/// bodies was checked; and unless annotations may go without, each of them has a body.
pub proof fn fine_runs_have_bodies(program: Seq<Decl>, turns: ProgramTurns, k: int)
    requires
        are_program_turns(program, turns),
        ends_bodies(turns, k),
        run_outcome(turns.last().2) is Ok,
    ensures
        ({
            let c = after_turn(program, turns, k).0;
            let types = turns[k].1.types;
            &&& main_errors(c, program).len() == 0
            &&& c.allow_bodyless_annotations || forall|i: int|
                0 <= i < types.len() ==> has_body(program, (#[trigger] types[i]).0)
        }),
{
    turns_keep_errors(program, turns, k + 1, turns.len() - 1);
    let t = turns[k];
    let after = after_turn(program, turns, k);
    assert(turns[k + 1].2 == after.1);
    assert(after.1.errors.len() == 0);
    assert forall|now: CheckerModel, run: RunModel|
        (#[trigger] bodies_done(now, program, t.1, run)).errors.len() == 0 implies main_errors(
        now,
        program,
    ).len() == 0 && (now.allow_bodyless_annotations || forall|i: int|
        0 <= i < t.1.types.len() ==> has_body(program, (#[trigger] t.1.types[i]).0)) by {
        bodyless_errors_grow(program, run.errors + main_errors(now, program), t.1.types);
    }
}

/// A run that has come to a fine end has checked all bodies: there was a turn in which
/// it was done with the last of them.
pub proof fn fine_runs_end_their_bodies(program: Seq<Decl>, turns: ProgramTurns) -> (k: int)
    requires
        are_program_turns(program, turns),
        turns[0].2.pass == import_from(program, 0),
        turns.last().2.pass == ProgramPass::Done,
        run_outcome(turns.last().2) is Ok,
    ensures
        ends_bodies(turns, k),
{
    done_after_bodies(program, turns, turns.len() - 1)
}

proof fn done_after_bodies(program: Seq<Decl>, turns: ProgramTurns, n: int) -> (k: int)
    requires
        are_program_turns(program, turns),
        turns[0].2.pass == import_from(program, 0),
        0 <= n < turns.len(),
        turns[n].2.pass == ProgramPass::Done || turns[n].2.pass == ProgramPass::Constraints,
        !turns[n].2.failed,
    ensures
        ends_bodies(turns, k),
    decreases n,
{
    if n == 0 {
        0
    } else {
        let t = turns[n - 1];
        assert(turns[(n - 1) + 1].2 == after_turn(program, turns, n - 1).1);
        turns_keep_errors(program, turns, n - 1, n);
        if turns[n].2.pass == ProgramPass::Constraints && t.2.pass != ProgramPass::Constraints {
            n - 1
        } else {
            done_after_bodies(program, turns, n - 1)
        }
    }
}

} // verus!
