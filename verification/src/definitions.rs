//! The definitions of a program: in which order they are registered, and what is
//! known of them before.

use vstd::prelude::*;
use crate::ast::{Decl, Kind, TypeParam};
use crate::checker::{local_name, Checker, CheckerModel};
use crate::diagnostics::{an_error_at, Diag, Diagnostic};
use crate::effect_decls::kinds_of;
use crate::header_decls::ModuleHeader;
use crate::header_register::headers_registered;
use crate::scope::ScopeModel;
use crate::table::{put, Table};
use crate::text::{concat, join_text, joined};
use crate::token::Span;
use crate::type_decls::{cycle_error, is_cycle_path, module_alias_graph};
use crate::values::push_value;

verus! {

/// The name of the module that a program declares to be.
pub open spec fn declared_module(program: Seq<Decl>) -> Option<Seq<char>>
    decreases program.len(),
{
    if program.len() == 0 {
        None
    } else {
        match program.first() {
            Decl::ModuleDecl { path, .. } => Some(joined(path.deep_view(), "."@)),
            _ => declared_module(program.drop_first()),
        }
    }
}

fn find_declared_module(program: &Vec<Decl>) -> (r: Option<String>)
    ensures
        r.deep_view() == declared_module(program@),
{
    let mut i: usize = 0;
    assert(program@.skip(0) =~= program@);
    while i < program.len()
        invariant
            i <= program.len(),
            declared_module(program@) == declared_module(program@.skip(i as int)),
        decreases program.len() - i,
    {
        proof {
            assert(program@.skip(i as int).first() == program@[i as int]);
            assert(program@.skip(i as int).drop_first() =~= program@.skip(i + 1));
        }
        if let Decl::ModuleDecl { path, .. } = &program[i] {
            return Some(join_text(path, "."));
        }
        i = i + 1;
    }
    None
}

/// The names of types with those that a program declares: they shadow imported ones.
pub open spec fn with_local_type(
    current_module: Option<Seq<char>>,
    types: Map<Seq<char>, Seq<char>>,
    decl: Decl,
) -> Map<Seq<char>, Seq<char>> {
    match decl {
        Decl::TypeDef { name, .. } => types.insert(name@, local_name(current_module, name@)),
        Decl::RecordDef { name, .. } => types.insert(name@, local_name(current_module, name@)),
        Decl::TypeAlias { name, .. } => types.insert(name@, local_name(current_module, name@)),
        _ => types,
    }
}

pub open spec fn with_local_types(
    current_module: Option<Seq<char>>,
    acc: Map<Seq<char>, Seq<char>>,
    items: Seq<Decl>,
) -> Map<Seq<char>, Seq<char>>
    decreases items.len(),
{
    if items.len() == 0 {
        acc
    } else {
        with_local_type(
            current_module,
            with_local_types(current_module, acc, items.drop_last()),
            items.last(),
        )
    }
}

fn add_local_types(
    current_module: &Option<String>,
    acc: &mut Table<String, String>,
    items: &Vec<Decl>,
)
    ensures
        final(acc).deep_view() == with_local_types(
            current_module.deep_view(),
            old(acc).deep_view(),
            items@,
        ),
{
    let ghost a0 = acc.deep_view();
    let ghost all = items@;
    let mut i: usize = 0;
    assert(all.take(0) =~= Seq::empty());
    while i < items.len()
        invariant
            i <= items.len(),
            all == items@,
            acc.deep_view() == with_local_types(current_module.deep_view(), a0, all.take(i as int)),
        decreases items.len() - i,
    {
        proof {
            assert(all.take(i + 1).drop_last() =~= all.take(i as int));
            assert(all.take(i + 1).last() == all[i as int]);
        }
        let name = match &items[i] {
            Decl::TypeDef { name, .. } => Some(name),
            Decl::RecordDef { name, .. } => Some(name),
            Decl::TypeAlias { name, .. } => Some(name),
            _ => None,
        };
        if let Some(name) = name {
            let canonical = match current_module {
                Some(module) => crate::text::dot_join(module.as_str(), name.as_str()),
                None => name.clone(),
            };
            acc.insert(name.clone(), canonical);
        }
        i = i + 1;
    }
    assert(all.take(i as int) =~= all);
}

/// The module that is checked: the one that the caller names, or else the one that
/// the program declares.
pub open spec fn with_module(c: CheckerModel, program: Seq<Decl>) -> CheckerModel {
    CheckerModel {
        current_module: match c.current_module {
            Some(module) => Some(module),
            None => declared_module(program),
        },
        ..c
    }
}

/// The state with the names of the types of a program in scope.
pub open spec fn with_types_in_scope(c: CheckerModel, program: Seq<Decl>) -> CheckerModel {
    CheckerModel {
        scope_map: ScopeModel {
            types: with_local_types(c.current_module, c.scope_map.types, program),
            ..c.scope_map
        },
        ..c
    }
}

impl Checker {
    /// Takes the module from the program, unless the caller has named it.
    pub fn infer_current_module(&mut self, program: &Vec<Decl>)
        ensures
            final(self).deep_view() == with_module(old(self).deep_view(), program@),
    {
        if self.current_module.is_none() {
            self.current_module = find_declared_module(program);
        }
    }

    /// Brings the types of a program into scope, before any of its declarations are
    /// looked at.
    pub fn seed_local_type_names(&mut self, program: &Vec<Decl>)
        ensures
            final(self).deep_view() == with_types_in_scope(old(self).deep_view(), program@),
    {
        add_local_types(&self.current_module, &mut self.scope_map.types, program);
    }

    /// The beginning of checking a program: its module, its types, and the headers of
    /// the modules that it imports and that import it.
    pub fn begin_program(
        &mut self,
        program: &Vec<Decl>,
        headers: Option<&Table<String, ModuleHeader>>,
        programs: &Vec<(String, Vec<Decl>)>,
    ) -> (r: Result<(), Vec<Diagnostic>>)
        requires
            headers matches Some(headers) ==> headers_registered(
                with_types_in_scope(with_module(old(self).deep_view(), program@), program@),
                headers.order(),
                programs@,
            ).0.next <= u32::MAX,
        ensures
            ({
                let seeded = with_types_in_scope(
                    with_module(old(self).deep_view(), program@),
                    program@,
                );
                match headers {
                    None => r is Ok && final(self).deep_view() == seeded,
                    Some(headers) => {
                        let done = headers_registered(seeded, headers.order(), programs@);
                        &&& final(self).deep_view() == done.0.c
                        &&& match (r, done.1) {
                            (Ok(_), None) => true,
                            (Err(errors), Some(message)) => errors.deep_view() == seq![
                                header_error(message),
                            ],
                            _ => false,
                        }
                    },
                }
            }),
    {
        self.infer_current_module(program);
        self.seed_local_type_names(program);
        match self.register_active_scc_headers(headers, programs) {
            Ok(_) => Ok(()),
            Err(message) => {
                let d = Diagnostic::error_at(
                    Span { start: 0, end: 0 },
                    concat("module header error: ", message.as_str()),
                );
                let mut errors: Vec<Diagnostic> = Vec::new();
                push_value(&mut errors, d);
                assert(errors.deep_view() =~= seq![header_error(message@)]);
                Err(errors)
            },
        }
    }
}

/// The error about headers whose names do not resolve.
pub open spec fn header_error(message: Seq<char>) -> Diag {
    an_error_at(Span { start: 0, end: 0 }, "module header error: "@ + message)
}

/// Passes over the declarations of a program that register definitions.
#[derive(Debug, Clone, Copy, PartialEq, Eq, Structural)]
pub enum DefinitionPass {
    /// Types, records, the names of effects, and traits.
    Outline,
    Aliases,
    /// The operations of effects, which may speak of any effect.
    EffectOps,
}

/// The registration of a declaration, by its place in the program.
#[derive(Debug, Clone, Copy, PartialEq, Eq, Structural)]
pub enum DefinitionStep {
    Type(usize),
    Record(usize),
    EffectStub(usize),
    Trait(usize),
    /// What all aliases are begun with; it is not of one declaration.
    BeginAliases,
    Alias(usize),
    EffectOps(usize),
}

/// What a pass does with a declaration.
pub open spec fn step_for(pass: DefinitionPass, decl: Decl, i: usize) -> Option<DefinitionStep> {
    match (pass, decl) {
        (DefinitionPass::Outline, Decl::TypeDef { .. }) => Some(DefinitionStep::Type(i)),
        (DefinitionPass::Outline, Decl::RecordDef { .. }) => Some(DefinitionStep::Record(i)),
        (DefinitionPass::Outline, Decl::EffectDef { .. }) => Some(DefinitionStep::EffectStub(i)),
        (DefinitionPass::Outline, Decl::TraitDef { .. }) => Some(DefinitionStep::Trait(i)),
        (DefinitionPass::Aliases, Decl::TypeAlias { .. }) => Some(DefinitionStep::Alias(i)),
        (DefinitionPass::EffectOps, Decl::EffectDef { .. }) => Some(DefinitionStep::EffectOps(i)),
        _ => None,
    }
}

/// The steps of a pass over the first `n` declarations.
pub open spec fn pass_steps(pass: DefinitionPass, program: Seq<Decl>, n: nat) -> Seq<DefinitionStep>
    decreases n,
{
    if n == 0 {
        Seq::empty()
    } else {
        let before = pass_steps(pass, program, (n - 1) as nat);
        match step_for(pass, program[n - 1], (n - 1) as usize) {
            Some(step) => before.push(step),
            None => before,
        }
    }
}

/// The steps of the aliases: they are begun where there are any.
pub open spec fn alias_steps(program: Seq<Decl>) -> Seq<DefinitionStep> {
    let steps = pass_steps(DefinitionPass::Aliases, program, program.len());
    if steps.len() == 0 {
        steps
    } else {
        seq![DefinitionStep::BeginAliases] + steps
    }
}

/// The order in which the definitions of a program are registered.
pub open spec fn definition_steps(program: Seq<Decl>) -> Seq<DefinitionStep> {
    pass_steps(DefinitionPass::Outline, program, program.len()) + alias_steps(program)
        + pass_steps(DefinitionPass::EffectOps, program, program.len())
}

fn step_of(pass: DefinitionPass, decl: &Decl, i: usize) -> (r: Option<DefinitionStep>)
    ensures
        r == step_for(pass, *decl, i),
{
    match pass {
        DefinitionPass::Outline => match decl {
            Decl::TypeDef { .. } => Some(DefinitionStep::Type(i)),
            Decl::RecordDef { .. } => Some(DefinitionStep::Record(i)),
            Decl::EffectDef { .. } => Some(DefinitionStep::EffectStub(i)),
            Decl::TraitDef { .. } => Some(DefinitionStep::Trait(i)),
            _ => None,
        },
        DefinitionPass::Aliases => match decl {
            Decl::TypeAlias { .. } => Some(DefinitionStep::Alias(i)),
            _ => None,
        },
        DefinitionPass::EffectOps => match decl {
            Decl::EffectDef { .. } => Some(DefinitionStep::EffectOps(i)),
            _ => None,
        },
    }
}

fn add_pass_steps(pass: DefinitionPass, program: &Vec<Decl>, steps: &mut Vec<DefinitionStep>)
    ensures
        final(steps)@ == old(steps)@ + pass_steps(pass, program@, program@.len()),
{
    let ghost before = steps@;
    let mut i: usize = 0;
    assert(before + Seq::<DefinitionStep>::empty() =~= before);
    while i < program.len()
        invariant
            i <= program.len(),
            steps@ == before + pass_steps(pass, program@, i as nat),
        decreases program.len() - i,
    {
        let ghost done = pass_steps(pass, program@, i as nat);
        if let Some(step) = step_of(pass, &program[i], i) {
            steps.push(step);
            assert(steps@ =~= before + done.push(step));
        }
        i = i + 1;
    }
}

/// The order in which the definitions of a program are registered.
pub fn plan_definitions(program: &Vec<Decl>) -> (r: Vec<DefinitionStep>)
    ensures
        r@ == definition_steps(program@),
{
    let mut steps: Vec<DefinitionStep> = Vec::new();
    add_pass_steps(DefinitionPass::Outline, program, &mut steps);
    let ghost outline = steps@;
    let mut aliases: Vec<DefinitionStep> = Vec::new();
    add_pass_steps(DefinitionPass::Aliases, program, &mut aliases);
    assert(aliases@ =~= pass_steps(DefinitionPass::Aliases, program@, program@.len()));
    if aliases.len() > 0 {
        steps.push(DefinitionStep::BeginAliases);
        steps.append(&mut aliases);
    }
    assert(steps@ =~= outline + alias_steps(program@));
    add_pass_steps(DefinitionPass::EffectOps, program, &mut steps);
    assert(steps@ =~= definition_steps(program@));
    steps
}

proof fn steps_are_found(pass: DefinitionPass, program: Seq<Decl>, n: nat, i: int)
    requires
        0 <= i < n <= program.len() <= usize::MAX,
        step_for(pass, program[i], i as usize) is Some,
    ensures
        pass_steps(pass, program, n).contains(
            step_for(pass, program[i], i as usize)->Some_0,
        ),
    decreases n,
{
    let step = step_for(pass, program[i], i as usize)->Some_0;
    let before = pass_steps(pass, program, (n - 1) as nat);
    if i < n - 1 {
        steps_are_found(pass, program, (n - 1) as nat, i);
        let at = choose|at: int| 0 <= at < before.len() && before[at] == step;
        assert(pass_steps(pass, program, n)[at] == step);
    } else {
        assert(pass_steps(pass, program, n)[before.len() as int] == step);
    }
}

/// Every effect is known by name before the operations of any effect are looked at.
pub proof fn effects_are_known_before_operations(
    program: Seq<Decl>,
    i: int,
    j: int,
) -> (r: (int, int))
    requires
        program.len() <= usize::MAX,
        0 <= i < program.len(),
        0 <= j < program.len(),
        program[i] is EffectDef,
        program[j] is EffectDef,
    ensures
        0 <= r.0 < r.1 < definition_steps(program).len(),
        definition_steps(program)[r.0] == DefinitionStep::EffectStub(i as usize),
        definition_steps(program)[r.1] == DefinitionStep::EffectOps(j as usize),
{
    let outline = pass_steps(DefinitionPass::Outline, program, program.len());
    let aliases = alias_steps(program);
    let ops = pass_steps(DefinitionPass::EffectOps, program, program.len());
    steps_are_found(DefinitionPass::Outline, program, program.len(), i);
    steps_are_found(DefinitionPass::EffectOps, program, program.len(), j);
    let stub = DefinitionStep::EffectStub(i as usize);
    let op = DefinitionStep::EffectOps(j as usize);
    let a = choose|a: int| 0 <= a < outline.len() && outline[a] == stub;
    let b = choose|b: int| 0 <= b < ops.len() && ops[b] == op;
    (a, outline.len() + aliases.len() + b)
}

/// Every type is known before the body of any alias is looked at.
pub proof fn types_are_known_before_aliases(program: Seq<Decl>, i: int, j: int) -> (r: (int, int))
    requires
        program.len() <= usize::MAX,
        0 <= i < program.len(),
        0 <= j < program.len(),
        program[i] is TypeDef,
        program[j] is TypeAlias,
    ensures
        0 <= r.0 < r.1 < definition_steps(program).len(),
        definition_steps(program)[r.0] == DefinitionStep::Type(i as usize),
        definition_steps(program)[r.1] == DefinitionStep::Alias(j as usize),
{
    let outline = pass_steps(DefinitionPass::Outline, program, program.len());
    let aliases = pass_steps(DefinitionPass::Aliases, program, program.len());
    steps_are_found(DefinitionPass::Outline, program, program.len(), i);
    steps_are_found(DefinitionPass::Aliases, program, program.len(), j);
    let ty = DefinitionStep::Type(i as usize);
    let alias = DefinitionStep::Alias(j as usize);
    let a = choose|a: int| 0 <= a < outline.len() && outline[a] == ty;
    let b = choose|b: int| 0 <= b < aliases.len() && aliases[b] == alias;
    assert(alias_steps(program)[b + 1] == alias);
    (a, outline.len() + b + 1)
}

/// The state with the arity and the kinds of an alias.
pub open spec fn with_alias_arity(c: CheckerModel, decl: Decl) -> CheckerModel {
    match decl {
        Decl::TypeAlias { name, type_params, .. } => CheckerModel {
            type_arity: put(
                c.type_arity,
                local_name(c.current_module, name@),
                type_params@.len() as usize,
            ),
            type_param_kinds: put(
                c.type_param_kinds,
                local_name(c.current_module, name@),
                kinds_of(type_params@),
            ),
            ..c
        },
        _ => c,
    }
}

/// The state with the arities of the aliases of a program.
pub open spec fn with_alias_arities(acc: CheckerModel, items: Seq<Decl>) -> CheckerModel
    decreases items.len(),
{
    if items.len() == 0 {
        acc
    } else {
        with_alias_arity(with_alias_arities(acc, items.drop_last()), items.last())
    }
}

fn kind_list(params: &Vec<TypeParam>) -> (r: Vec<Kind>)
    ensures
        r.deep_view() == kinds_of(params@),
{
    let mut out: Vec<Kind> = Vec::new();
    let mut i: usize = 0;
    while i < params.len()
        invariant
            i <= params.len(),
            out.len() == i,
            forall|j: int| 0 <= j < i ==> #[trigger] out.deep_view()[j] == params@[j].kind,
        decreases params.len() - i,
    {
        push_value(&mut out, params[i].kind);
        i = i + 1;
    }
    assert(out.deep_view() =~= kinds_of(params@));
    out
}

fn add_alias_arities(acc: &mut Checker, items: &Vec<Decl>)
    ensures
        final(acc).deep_view() == with_alias_arities(old(acc).deep_view(), items@),
{
    let ghost a0 = acc.deep_view();
    let ghost all = items@;
    let mut i: usize = 0;
    assert(all.take(0) =~= Seq::empty());
    while i < items.len()
        invariant
            i <= items.len(),
            all == items@,
            acc.deep_view() == with_alias_arities(a0, all.take(i as int)),
        decreases items.len() - i,
    {
        proof {
            assert(all.take(i + 1).drop_last() =~= all.take(i as int));
            assert(all.take(i + 1).last() == all[i as int]);
        }
        if let Decl::TypeAlias { name, type_params, .. } = &items[i] {
            let canonical = acc.canonical_name(name.as_str());
            acc.type_arity.insert(canonical.clone(), type_params.len());
            acc.type_param_kinds.insert(canonical, kind_list(type_params));
        }
        i = i + 1;
    }
    assert(all.take(i as int) =~= all);
}

impl Checker {
    /// What is known of aliases before their bodies are looked at: how many arguments
    /// they take, and that none speaks of itself.
    pub fn begin_aliases(&mut self, program: &Vec<Decl>) -> (r: Result<(), Diagnostic>)
        ensures
            final(self).deep_view() == with_alias_arities(old(self).deep_view(), program@),
            ({
                let g = module_alias_graph(final(self).deep_view(), program@);
                match r {
                    Ok(_) => forall|p: Seq<Seq<char>>| !(#[trigger] is_cycle_path(g, p)),
                    Err(e) => exists|p: Seq<Seq<char>>| #[trigger]
                        is_cycle_path(g, p) && e@ == cycle_error(
                            final(self).deep_view(),
                            program@,
                            p,
                        ),
                }
            }),
    {
        add_alias_arities(self, program);
        self.detect_alias_cycles(program)
    }
}

} // verus!
