//! Effects: looking them up, and checking that they are declared.

use vstd::prelude::*;
use crate::ast::{EffectRef, Kind, NodeId};
use crate::checker::{local_name, resolved_name, Checker, CheckerModel};
use crate::diagnostics::{an_error_at, Diag, Diagnostic, Severity};
use crate::infos::{EffectDefInfo, EffectModel};
use crate::names::{canonical_type_name, canonicalize_type_name};
use crate::scope::lookup;
use crate::seqs::{add_new, add_new_contains, add_new_one, push_new};
use crate::sorting::{sort_texts, sorted_texts};
use crate::subst::{acyclic, applied, applied_row, Substitution};
use crate::table::{at_key, has_key, Table};
use crate::text::{
    after_last_dot, before_last_dot, concat, concat3, concat4, concat5, dot_join, dotted,
    join_text, joined, last_segment, split_last_dot, starts_with, text_eq,
};
use crate::token::Span;
use crate::types::{EffectEntry, EffectRow, Entry, Row, Ty, Type, group_type_models};
use crate::values::{contains_name, outcome, push_value, Dup};

verus! {

/// A registered effect by a name: as it is, as the scope knows it, or as one of
/// the module's own.
pub open spec fn effect_named(c: CheckerModel, name: Seq<char>) -> Option<EffectModel> {
    match at_key(c.effects, name) {
        Some(info) => Some(info),
        None => {
            let scoped = match lookup(c.scope_map.effects, name) {
                Some(canonical) => at_key(c.effects, canonical),
                None => None,
            };
            match scoped {
                Some(info) => Some(info),
                None => match c.current_module {
                    Some(module) => at_key(c.effects, dotted(module, name)),
                    None => None,
                },
            }
        },
    }
}

/// The canonical name of an effect: qualified with the module that it comes from,
/// or else with the current module.
pub open spec fn canonical_effect(c: CheckerModel, name: Seq<char>) -> Seq<char> {
    match effect_named(c, name) {
        Some(info) => match info.source_module {
            Some(module) => dotted(module, last_segment(name)),
            None => local_name(c.current_module, name),
        },
        None => local_name(c.current_module, name),
    }
}

/// The canonical name of an effect that a qualifier stands for.
pub open spec fn qualified_effect(c: CheckerModel, name: Seq<char>) -> Option<Seq<char>> {
    match lookup(c.scope_map.effects, name) {
        Some(canonical) => if has_key(c.effects, canonical) {
            Some(canonical)
        } else {
            own_effect(c, name)
        },
        None => own_effect(c, name),
    }
}

pub open spec fn own_effect(c: CheckerModel, name: Seq<char>) -> Option<Seq<char>> {
    if has_key(c.effects, name) {
        Some(name)
    } else {
        match c.current_module {
            Some(module) => if has_key(c.effects, dotted(module, name)) {
                Some(dotted(module, name))
            } else {
                None
            },
            None => None,
        }
    }
}

/// What a bare operation name stands for.
pub enum BareEffectOpResolution {
    Missing,
    Found(String),
    /// The effects that have an operation of that name, in order.
    Ambiguous(Vec<String>),
}

#[verifier::ext_equal]
pub enum BareOp {
    Missing,
    Found(Seq<char>),
    Ambiguous(Seq<Seq<char>>),
}

impl DeepView for BareEffectOpResolution {
    type V = BareOp;

    open spec fn deep_view(&self) -> BareOp {
        match self {
            BareEffectOpResolution::Missing => BareOp::Missing,
            BareEffectOpResolution::Found(name) => BareOp::Found(name@),
            BareEffectOpResolution::Ambiguous(names) => BareOp::Ambiguous(names.deep_view()),
        }
    }
}

/// Whether an effect belongs to the current module.
pub open spec fn is_local_effect(current_module: Option<Seq<char>>, effect: Seq<char>) -> bool {
    match current_module {
        Some(module) => crate::text::begins_with(effect, module + "."@),
        None => false,
    }
}

/// The effects among some that count: the module's own where there are any, the
/// imported ones otherwise.
pub open spec fn chosen_effects(
    current_module: Option<Seq<char>>,
    candidates: Seq<Seq<char>>,
) -> Seq<Seq<char>> {
    let locals = candidates.filter(|e: Seq<char>| is_local_effect(current_module, e));
    if locals.len() > 0 {
        locals
    } else {
        candidates.filter(|e: Seq<char>| !is_local_effect(current_module, e))
    }
}

/// What a bare operation name stands for: the one effect that has it, where just
/// one of those that count does.
pub open spec fn bare_op(c: CheckerModel, op: Seq<char>) -> BareOp {
    if c.scope_map.effect_ops.dom().contains(op) {
        let chosen = chosen_effects(c.current_module, c.scope_map.effect_ops[op]);
        if chosen.len() == 0 {
            BareOp::Missing
        } else if chosen.len() == 1 {
            BareOp::Found(chosen[0])
        } else {
            BareOp::Ambiguous(sorted_texts(chosen))
        }
    } else {
        BareOp::Missing
    }
}

/// The effect of an operation.
pub open spec fn effect_of_op(
    c: CheckerModel,
    op: Seq<char>,
    qualifier: Option<Seq<char>>,
) -> Option<
    Seq<char>,
> {
    match qualifier {
        Some(effect) => qualified_effect(c, effect),
        None => match bare_op(c, op) {
            BareOp::Found(effect) => Some(effect),
            _ => None,
        },
    }
}

fn local_effect(current_module: &Option<String>, effect: &String) -> (r: bool)
    ensures
        r == is_local_effect(current_module.deep_view(), effect@),
{
    match current_module {
        Some(module) => {
            let prefix = concat(module.as_str(), ".");
            starts_with(effect.as_str(), prefix.as_str())
        },
        None => false,
    }
}

/// The effects that are local, or those that are not.
fn effects_by_place(
    current_module: &Option<String>,
    candidates: &Vec<String>,
    local: bool,
) -> (r: Vec<String>)
    ensures
        r.deep_view() == candidates.deep_view().filter(
            |e: Seq<char>| is_local_effect(current_module.deep_view(), e) == local,
        ),
{
    let ghost all = candidates.deep_view();
    let ghost keep = |e: Seq<char>| is_local_effect(current_module.deep_view(), e) == local;
    let mut out: Vec<String> = Vec::new();
    let mut i: usize = 0;
    proof {
        reveal(Seq::filter);
        assert(all.take(0) =~= Seq::empty());
        assert(out.deep_view() =~= all.take(0).filter(keep));
    }
    while i < candidates.len()
        invariant
            i <= candidates.len(),
            all == candidates.deep_view(),
            keep == (|e: Seq<char>| is_local_effect(current_module.deep_view(), e) == local),
            out.deep_view() == all.take(i as int).filter(keep),
        decreases candidates.len() - i,
    {
        proof {
            reveal(Seq::filter);
            assert(all.take(i + 1).drop_last() =~= all.take(i as int));
            assert(all.take(i + 1).last() == all[i as int]);
        }
        if local_effect(current_module, &candidates[i]) == local {
            push_value(&mut out, candidates[i].clone());
        }
        i = i + 1;
    }
    assert(all.take(i as int) =~= all);
    out
}

/// The labels of functions whose missing handlers are explained in another way.
pub open spec fn undeclared_error(
    label: Seq<char>,
    declared: Row,
    undeclared: Seq<Seq<char>>,
    span: Span,
) -> Diag {
    let shown = joined(
        sorted_texts(undeclared).map_values(|e: Seq<char>| last_segment(e)),
        ", "@,
    );
    if label == "function 'main'"@ {
        an_error_at(
            span,
            "`main` uses effects {"@ + shown
                + "} but no handler is provided. Use `with` to handle them, e.g.:\n\n  main () = {\n    ...\n  } with handler_name\n"@,
        )
    } else if declared.effects.len() == 0 {
        an_error_at(span, label + " uses effects {"@ + shown + "} but has no 'needs' declaration"@)
    } else {
        an_error_at(
            span,
            label + " uses effects {"@ + shown + "} not declared in its 'needs' clause"@,
        )
    }
}

/// Whether a row names the effect of an entry.
pub open spec fn names_effect(effects: Seq<Entry>, e: Entry) -> bool {
    exists|i: int| 0 <= i < effects.len() && (#[trigger] effects[i]).name == e.name
}

/// The names of the effects of a body that a row does not name.
pub open spec fn undeclared_in(declared: Seq<Entry>, body: Seq<Entry>) -> Seq<Seq<char>>
    decreases body.len(),
{
    if body.len() == 0 {
        Seq::empty()
    } else {
        let init = undeclared_in(declared, body.drop_last());
        if names_effect(declared, body.last()) {
            init
        } else {
            init.push(body.last().name)
        }
    }
}

/// Whether the effects of a body are covered by a declared row: an open row
/// covers everything, a closed one what it names.
pub open spec fn effects_covered(body: Row, declared: Row, label: Seq<char>, span: Span) -> Result<
    (),
    Diag,
> {
    if declared.tails.len() > 0 {
        Ok(())
    } else {
        let undeclared = undeclared_in(declared.effects, body.effects);
        if undeclared.len() == 0 {
            Ok(())
        } else {
            Err(undeclared_error(label, declared, undeclared, span))
        }
    }
}

fn has_entry(effects: &Vec<EffectEntry>, e: &EffectEntry) -> (r: bool)
    ensures
        r == names_effect(effects.deep_view(), e@),
{
    let mut i: usize = 0;
    while i < effects.len()
        invariant
            i <= effects.len(),
            forall|j: int| 0 <= j < i ==> (#[trigger] effects.deep_view()[j]).name != e@.name,
        decreases effects.len() - i,
    {
        if effects[i].matches(e) {
            assert(effects.deep_view()[i as int].name == e@.name);
            return true;
        }
        i = i + 1;
    }
    false
}

fn undeclared_names(declared: &Vec<EffectEntry>, body: &Vec<EffectEntry>) -> (r: Vec<String>)
    ensures
        r.deep_view() == undeclared_in(declared.deep_view(), body.deep_view()),
{
    let ghost all = body.deep_view();
    let mut out: Vec<String> = Vec::new();
    let mut i: usize = 0;
    assert(all.take(0) =~= Seq::empty());
    assert(out.deep_view() =~= Seq::empty());
    while i < body.len()
        invariant
            i <= body.len(),
            all == body.deep_view(),
            out.deep_view() == undeclared_in(declared.deep_view(), all.take(i as int)),
        decreases body.len() - i,
    {
        proof {
            assert(all.take(i + 1).drop_last() =~= all.take(i as int));
            assert(all.take(i + 1).last() == body@[i as int]@);
            crate::types::entry_model_parts(body@[i as int]);
        }
        if !has_entry(declared, &body[i]) {
            push_value(&mut out, body[i].name.clone());
        }
        i = i + 1;
    }
    assert(all.take(i as int) =~= all);
    out
}

/// Names without their modules.
pub fn short_names(v: &Vec<String>) -> (r: Vec<String>)
    ensures
        r.deep_view() == v.deep_view().map_values(|x: Seq<char>| last_segment(x)),
{
    let mut out: Vec<String> = Vec::new();
    let mut i: usize = 0;
    while i < v.len()
        invariant
            i <= v.len(),
            out.len() == i,
            forall|j: int|
                0 <= j < i ==> #[trigger] out.deep_view()[j] == last_segment(v.deep_view()[j]),
        decreases v.len() - i,
    {
        push_value(&mut out, after_last_dot(v[i].as_str()).to_owned());
        i = i + 1;
    }
    assert(out.deep_view() =~= v.deep_view().map_values(|x: Seq<char>| last_segment(x)));
    out
}

/// Checks the effects of a body against a declared row, solved variables applied
/// to the latter.
pub fn check_effects_via_row(
    sub: &Substitution,
    body_effs: &EffectRow,
    declared_row: &EffectRow,
    label: &str,
    span: Span,
) -> (r: Result<(), Diagnostic>)
    requires
        acyclic(sub@),
    ensures
        outcome(r) == effects_covered(body_effs@, applied_row(sub@, declared_row@), label@, span),
{
    broadcast use group_type_models;

    let declared = sub.apply_effect_row(declared_row);
    proof {
        assert(declared.effects.deep_view().len() == declared.effects.len());
    }
    if declared.is_open() {
        return Ok(());
    }
    let undeclared = undeclared_names(&declared.effects, &body_effs.effects);
    assert(undeclared.deep_view().len() == undeclared.len());
    if undeclared.len() == 0 {
        return Ok(());
    }
    let sorted = sort_texts(&undeclared);
    let shown = join_text(&short_names(&sorted), ", ");
    if text_eq(label, "function 'main'") {
        Err(
            Diagnostic::error_at(
                span,
                concat3(
                    "`main` uses effects {",
                    shown.as_str(),
                    "} but no handler is provided. Use `with` to handle them, e.g.:\n\n  main () = {\n    ...\n  } with handler_name\n",
                ),
            ),
        )
    } else if declared.effects.len() == 0 {
        Err(
            Diagnostic::error_at(
                span,
                concat4(
                    label,
                    " uses effects {",
                    shown.as_str(),
                    "} but has no 'needs' declaration",
                ),
            ),
        )
    } else {
        Err(
            Diagnostic::error_at(
                span,
                concat4(
                    label,
                    " uses effects {",
                    shown.as_str(),
                    "} not declared in its 'needs' clause",
                ),
            ),
        )
    }
}

/// The first effect that a bare name in a handler type may mean.
pub open spec fn effect_with_segment(
    effects: Seq<(Seq<char>, EffectModel)>,
    name: Seq<char>,
) -> Option<Seq<char>>
    decreases effects.len(),
{
    if effects.len() == 0 {
        None
    } else {
        match effect_with_segment(effects.drop_last(), name) {
            Some(k) => Some(k),
            None => if effects.last().0 == name || (before_last_dot(effects.last().0) is Some
                && last_segment(effects.last().0) == name) {
                Some(effects.last().0)
            } else {
                None
            },
        }
    }
}

proof fn effect_with_segment_stays(
    effects: Seq<(Seq<char>, EffectModel)>,
    name: Seq<char>,
    n: int,
)
    requires
        0 <= n <= effects.len(),
        effect_with_segment(effects.take(n), name) is Some,
    ensures
        effect_with_segment(effects, name) == effect_with_segment(effects.take(n), name),
    decreases effects.len(),
{
    if n < effects.len() {
        assert(effects.drop_last().take(n) =~= effects.take(n));
        effect_with_segment_stays(effects.drop_last(), name, n);
    } else {
        assert(effects.take(n) =~= effects);
    }
}

/// The canonical name of an effect in a handler type.
pub open spec fn normalized_effect(c: CheckerModel, name: Seq<char>) -> Seq<char> {
    if name.contains('.') {
        name
    } else {
        match lookup(c.scope_map.effects, name) {
            Some(canonical) => canonical,
            None => match effect_with_segment(c.effects, name) {
                Some(canonical) => canonical,
                None => local_name(c.current_module, name),
            },
        }
    }
}

/// The state after a bare effect name was replaced: each replacement is warned
/// about once.
pub open spec fn with_normalized(c: CheckerModel, name: Seq<char>) -> CheckerModel {
    let canonical = normalized_effect(c, name);
    let key = name + " -> "@ + canonical;
    if canonical == name || c.normalization_warnings.contains(key) {
        c
    } else {
        CheckerModel {
            normalization_warnings: c.normalization_warnings.push(key),
            collected_diagnostics: c.collected_diagnostics.push(
                Diag {
                    severity: Severity::Warning,
                    message: "internal warning: normalized bare effect `"@ + name
                        + "` inside `Handler` type to `"@ + canonical
                        + "`; handler effect names should already be canonical"@,
                    span: None,
                },
            ),
            ..c
        }
    }
}

fn find_effect_with_segment(
    effects: &Table<String, EffectDefInfo>,
    name: &str,
) -> (r: Option<String>)
    ensures
        r.deep_view() == effect_with_segment(effects.order(), name@),
{
    let ghost all = effects.order();
    let n = effects.len();
    let mut i: usize = 0;
    assert(all.take(0) =~= Seq::empty());
    while i < n
        invariant
            i <= n,
            n == all.len(),
            all == effects.order(),
            effect_with_segment(all.take(i as int), name@) is None,
        decreases n - i,
    {
        proof {
            assert(all.take(i + 1).drop_last() =~= all.take(i as int));
            assert(all.take(i + 1).last() == all[i as int]);
        }
        let key = effects.key(i);
        let found = if text_eq(key.as_str(), name) {
            true
        } else {
            match split_last_dot(key.as_str()) {
                Some((_, last)) => text_eq(last.as_str(), name),
                None => false,
            }
        };
        if found {
            proof {
                effect_with_segment_stays(all, name@, i + 1);
            }
            return Some(key.clone());
        }
        i = i + 1;
    }
    assert(all.take(i as int) =~= all);
    None
}

/// A type that a handler type names an effect by.
pub open spec fn effect_names_in(c: CheckerModel, args: Seq<Ty>) -> (CheckerModel, Seq<Seq<char>>)
    decreases args.len(),
{
    if args.len() == 0 {
        (c, Seq::empty())
    } else {
        let before = effect_names_in(c, args.drop_last());
        match applied(c.sub, args.last()) {
            Ty::Con(name, _) => (
                with_normalized(before.0, name),
                before.1.push(normalized_effect(before.0, name)),
            ),
            _ => before,
        }
    }
}

/// The effects that a name bound to a handler handles, read off its type; and the
/// state with warnings on the way.
pub open spec fn env_handler_effects(c: CheckerModel, name: Seq<char>) -> (
    CheckerModel,
    Option<Seq<Seq<char>>>,
) {
    match at_key(c.env.bindings, name) {
        None => (c, None),
        Some(scheme) => match applied(c.sub, scheme.ty) {
            Ty::Con(con, args) => if con == canonical_type_name("Handler"@) {
                let found = effect_names_in(c, args);
                if found.1.len() == 0 {
                    (found.0, None)
                } else {
                    (found.0, Some(found.1))
                }
            } else {
                (c, None)
            },
            _ => (c, None),
        },
    }
}

/// Nothing that a warning changes matters to how effects are named.
proof fn normalizing_keeps(c: CheckerModel, name: Seq<char>)
    ensures
        with_normalized(c, name).sub == c.sub,
        with_normalized(c, name).env == c.env,
        with_normalized(c, name).handlers == c.handlers,
        with_normalized(c, name).resolution == c.resolution,
{
}

impl Checker {
    /// A registered effect by a name.
    pub fn resolve_effect(&self, name: &str) -> (r: Option<EffectDefInfo>)
        ensures
            r.deep_view() == effect_named(self.deep_view(), name@),
    {
        if let Some(info) = self.effects.named(name) {
            return Some(info.dup());
        }
        if let Some(canonical) = self.scope_map.resolve_effect(name) {
            if let Some(info) = self.effects.get(canonical) {
                return Some(info.dup());
            }
        }
        if let Some(module) = &self.current_module {
            let key = dot_join(module.as_str(), name);
            if let Some(info) = self.effects.get(&key) {
                return Some(info.dup());
            }
        }
        None
    }

    /// The canonical name of an effect.
    pub fn canonical_effect_name(&self, name: &str) -> (r: String)
        ensures
            r@ == canonical_effect(self.deep_view(), name@),
    {
        match self.resolve_effect(name) {
            Some(info) => match info.source_module {
                Some(module) => dot_join(module.as_str(), after_last_dot(name)),
                None => self.canonical_name(name),
            },
            None => self.canonical_name(name),
        }
    }

    /// The canonical name of the effect that a qualifier stands for.
    pub fn resolve_effect_qualifier(&self, effect_name: &str) -> (r: Option<String>)
        ensures
            r.deep_view() == qualified_effect(self.deep_view(), effect_name@),
    {
        if let Some(canonical) = self.scope_map.resolve_effect(effect_name) {
            if self.effects.contains_key(canonical) {
                return Some(canonical.clone());
            }
        }
        if self.effects.has_name(effect_name) {
            return Some(effect_name.to_owned());
        }
        if let Some(module) = &self.current_module {
            let key = dot_join(module.as_str(), effect_name);
            if self.effects.contains_key(&key) {
                return Some(key);
            }
        }
        None
    }

    /// What a bare operation name stands for.
    pub fn resolve_bare_effect_op(&self, op_name: &str) -> (r: BareEffectOpResolution)
        ensures
            r.deep_view() == bare_op(self.deep_view(), op_name@),
    {
        let candidates = match self.scope_map.effect_ops.named(op_name) {
            Some(candidates) => candidates,
            None => {
                return BareEffectOpResolution::Missing;
            },
        };
        let ghost module = self.deep_view().current_module;
        let ghost all = candidates.deep_view();
        let locals = effects_by_place(&self.current_module, candidates, true);
        let imports = effects_by_place(&self.current_module, candidates, false);
        proof {
            let is_local = |e: Seq<char>| is_local_effect(module, e);
            let is_true = |e: Seq<char>| is_local_effect(module, e) == true;
            let is_other = |e: Seq<char>| !is_local_effect(module, e);
            let is_false = |e: Seq<char>| is_local_effect(module, e) == false;
            assert(is_local =~= is_true);
            assert(is_other =~= is_false);
            assert(locals.deep_view() == all.filter(is_local));
            assert(imports.deep_view() == all.filter(is_other));
            assert(locals.deep_view().len() == locals.len());
        }
        let chosen = if locals.len() > 0 {
            locals
        } else {
            imports
        };
        assert(chosen.deep_view() == chosen_effects(module, all));
        assert(chosen.deep_view().len() == chosen.len());
        if chosen.len() == 0 {
            BareEffectOpResolution::Missing
        } else if chosen.len() == 1 {
            BareEffectOpResolution::Found(chosen[0].clone())
        } else {
            BareEffectOpResolution::Ambiguous(sort_texts(&chosen))
        }
    }

    /// The effect of an operation.
    pub fn effect_for_op(&self, op_name: &str, qualifier: Option<&str>) -> (r: Option<String>)
        ensures
            r.deep_view() == effect_of_op(
                self.deep_view(),
                op_name@,
                match qualifier {
                    Some(q) => Some(q@),
                    None => None,
                },
            ),
    {
        match qualifier {
            Some(effect) => self.resolve_effect_qualifier(effect),
            None => match self.resolve_bare_effect_op(op_name) {
                BareEffectOpResolution::Found(effect) => Some(effect),
                _ => None,
            },
        }
    }

    /// The canonical name of an effect in a handler type.
    pub fn normalize_handler_effect_name(&mut self, effect_name: String) -> (r: String)
        ensures
            r@ == normalized_effect(old(self).deep_view(), effect_name@),
            final(self).deep_view() == with_normalized(old(self).deep_view(), effect_name@),
    {
        if crate::text::has_char(effect_name.as_str(), '.') {
            return effect_name;
        }
        let canonical = match self.scope_map.resolve_effect(effect_name.as_str()) {
            Some(canonical) => canonical.clone(),
            None => match find_effect_with_segment(&self.effects, effect_name.as_str()) {
                Some(canonical) => canonical,
                None => self.canonical_name(effect_name.as_str()),
            },
        };
        if !text_eq(canonical.as_str(), effect_name.as_str()) {
            let key = concat3(effect_name.as_str(), " -> ", canonical.as_str());
            if !contains_name(&self.normalization_warnings, key.as_str()) {
                let message = concat5(
                    "internal warning: normalized bare effect `",
                    effect_name.as_str(),
                    "` inside `Handler` type to `",
                    canonical.as_str(),
                    "`; handler effect names should already be canonical",
                );
                push_value(&mut self.normalization_warnings, key);
                push_value(
                    &mut self.collected_diagnostics,
                    Diagnostic::new(Severity::Warning, message),
                );
            }
        }
        canonical
    }

    fn effect_names_in_types(&mut self, args: &Vec<Type>) -> (r: Vec<String>)
        requires
            acyclic(old(self).deep_view().sub),
        ensures
            (final(self).deep_view(), r.deep_view()) == effect_names_in(
                old(self).deep_view(),
                args.deep_view(),
            ),
    {
        broadcast use group_type_models;

        let ghost c0 = self.deep_view();
        let ghost all = args.deep_view();
        let mut out: Vec<String> = Vec::new();
        let mut i: usize = 0;
        assert(all.take(0) =~= Seq::empty());
        assert(out.deep_view() =~= Seq::empty());
        while i < args.len()
            invariant
                i <= args.len(),
                all == args.deep_view(),
                acyclic(c0.sub),
                self.deep_view().sub == c0.sub,
                (self.deep_view(), out.deep_view()) == effect_names_in(c0, all.take(i as int)),
            decreases args.len() - i,
        {
            broadcast use group_type_models;

            proof {
                assert(all.take(i + 1).drop_last() =~= all.take(i as int));
                assert(all.take(i + 1).last() == args@[i as int]@);
            }
            let resolved = self.sub.apply(&args[i]);
            if let Type::Con(name, _) = resolved {
                proof {
                    normalizing_keeps(self.deep_view(), name@);
                }
                let canonical = self.normalize_handler_effect_name(name);
                push_value(&mut out, canonical);
            }
            i = i + 1;
        }
        assert(all.take(i as int) =~= all);
        out
    }

    /// The effects that a name bound to a handler handles, read off its type.
    pub fn handler_effects_from_env(&mut self, name: &str) -> (r: Option<Vec<String>>)
        requires
            acyclic(old(self).deep_view().sub),
        ensures
            (final(self).deep_view(), r.deep_view()) == env_handler_effects(
                old(self).deep_view(),
                name@,
            ),
    {
        broadcast use group_type_models;

        let ty = match self.env.get(name) {
            None => {
                return None;
            },
            Some(scheme) => self.sub.apply(&scheme.ty),
        };
        if let Type::Con(con, args) = &ty {
            if text_eq(con.as_str(), canonicalize_type_name("Handler")) {
                let names = self.effect_names_in_types(args);
                assert(names.deep_view().len() == names.len());
                if names.len() == 0 {
                    return None;
                }
                return Some(names);
            }
        }
        None
    }
}

/// The handlers that an expression is run with: named ones, and arms written in
/// place, each with its operation and the effect that qualifies it.
pub struct HandlerUse {
    pub named: Vec<(NodeId, String)>,
    pub arms: Vec<(NodeId, String, Option<String>)>,
}

/// Effects with those of a named handler.
pub open spec fn with_named_handled(
    acc: (CheckerModel, Seq<Seq<char>>),
    named: (NodeId, Seq<char>),
) -> (CheckerModel, Seq<Seq<char>>) {
    let name = resolved_name(acc.0.resolution.handler_refs, named.0, named.1);
    match at_key(acc.0.handlers, name) {
        Some(info) => (acc.0, add_new(acc.1, info.effects)),
        None => {
            let found = env_handler_effects(acc.0, name);
            match found.1 {
                Some(effects) => (found.0, add_new(acc.1, effects)),
                None => (found.0, acc.1),
            }
        },
    }
}

pub open spec fn with_all_named_handled(
    acc: (CheckerModel, Seq<Seq<char>>),
    items: Seq<(NodeId, Seq<char>)>,
) -> (CheckerModel, Seq<Seq<char>>)
    decreases items.len(),
{
    if items.len() == 0 {
        acc
    } else {
        with_named_handled(with_all_named_handled(acc, items.drop_last()), items.last())
    }
}

/// The effect that an arm handles.
pub open spec fn arm_effect(
    c: CheckerModel,
    arm: (NodeId, Seq<char>, Option<Seq<char>>),
) -> Option<Seq<char>> {
    match at_key(c.resolution.handler_arms, arm.0) {
        Some(effect) => Some(effect),
        None => effect_of_op(c, arm.1, arm.2),
    }
}

pub open spec fn with_arm_handled(
    c: CheckerModel,
    handled: Seq<Seq<char>>,
    arm: (NodeId, Seq<char>, Option<Seq<char>>),
) -> Seq<Seq<char>> {
    match arm_effect(c, arm) {
        Some(effect) => add_new(handled, seq![effect]),
        None => handled,
    }
}

pub open spec fn with_all_arms_handled(
    c: CheckerModel,
    acc: Seq<Seq<char>>,
    items: Seq<(NodeId, Seq<char>, Option<Seq<char>>)>,
) -> Seq<Seq<char>>
    decreases items.len(),
{
    if items.len() == 0 {
        acc
    } else {
        with_arm_handled(c, with_all_arms_handled(c, acc, items.drop_last()), items.last())
    }
}

impl Checker {
    fn named_handled(&mut self, named: &Vec<(NodeId, String)>) -> (r: Vec<String>)
        requires
            acyclic(old(self).deep_view().sub),
        ensures
            (final(self).deep_view(), r.deep_view()) == with_all_named_handled(
                (old(self).deep_view(), Seq::empty()),
                named.deep_view(),
            ),
            final(self).deep_view().sub == old(self).deep_view().sub,
    {
        let ghost c0 = self.deep_view();
        let ghost all = named.deep_view();
        let mut handled: Vec<String> = Vec::new();
        let mut i: usize = 0;
        assert(all.take(0) =~= Seq::empty());
        assert(handled.deep_view() =~= Seq::empty());
        while i < named.len()
            invariant
                i <= named.len(),
                all == named.deep_view(),
                acyclic(c0.sub),
                self.deep_view().sub == c0.sub,
                (self.deep_view(), handled.deep_view()) == with_all_named_handled(
                    (c0, Seq::empty()),
                    all.take(i as int),
                ),
            decreases named.len() - i,
        {
            proof {
                assert(all.take(i + 1).drop_last() =~= all.take(i as int));
                assert(all.take(i + 1).last() == named@[i as int].deep_view());
            }
            let ghost c = self.deep_view();
            let name = self.resolved_handler_name(named[i].0, named[i].1.as_str());
            let known = match self.handlers.get(&name) {
                Some(info) => Some(info.effects.dup()),
                None => None,
            };
            match known {
                Some(effects) => {
                    crate::exports::add_names(&mut handled, &effects);
                },
                None => {
                    proof {
                        env_handler_effects_keep(c, name@);
                    }
                    if let Some(effects) = self.handler_effects_from_env(name.as_str()) {
                        crate::exports::add_names(&mut handled, &effects);
                    }
                },
            }
            i = i + 1;
        }
        assert(all.take(i as int) =~= all);
        handled
    }

    /// The effects that handlers handle, each once.
    pub fn handler_handled_effects(&mut self, handler: &HandlerUse) -> (r: Vec<String>)
        requires
            acyclic(old(self).deep_view().sub),
        ensures
            ({
                let named = with_all_named_handled(
                    (old(self).deep_view(), Seq::empty()),
                    handler.named.deep_view(),
                );
                &&& final(self).deep_view() == named.0
                &&& r.deep_view() == with_all_arms_handled(
                    named.0,
                    named.1,
                    handler.arms.deep_view(),
                )
            }),
    {
        let mut handled = self.named_handled(&handler.named);
        let ghost h0 = handled.deep_view();
        let ghost all = handler.arms.deep_view();
        let mut i: usize = 0;
        assert(all.take(0) =~= Seq::empty());
        while i < handler.arms.len()
            invariant
                i <= handler.arms.len(),
                all == handler.arms.deep_view(),
                handled.deep_view() == with_all_arms_handled(
                    self.deep_view(),
                    h0,
                    all.take(i as int),
                ),
            decreases handler.arms.len() - i,
        {
            let arm = &handler.arms[i];
            proof {
                assert(all.take(i + 1).drop_last() =~= all.take(i as int));
                assert(all.take(i + 1).last() == arm.deep_view());
            }
            let effect = match self.resolution.handler_arms.get(&arm.0) {
                Some(effect) => Some(effect.clone()),
                None => {
                    let qualifier = match &arm.2 {
                        Some(q) => Some(q.as_str()),
                        None => None,
                    };
                    self.effect_for_op(arm.1.as_str(), qualifier)
                },
            };
            if let Some(effect) = effect {
                proof {
                    add_new_one(handled.deep_view(), effect@);
                }
                push_new(&mut handled, effect);
            }
            i = i + 1;
        }
        assert(all.take(i as int) =~= all);
        handled
    }
}

proof fn effect_names_keep(c: CheckerModel, args: Seq<Ty>)
    ensures
        effect_names_in(c, args).0.sub == c.sub,
    decreases args.len(),
{
    if args.len() > 0 {
        effect_names_keep(c, args.drop_last());
    }
}

proof fn env_handler_effects_keep(c: CheckerModel, name: Seq<char>)
    ensures
        env_handler_effects(c, name).0.sub == c.sub,
{
    match at_key(c.env.bindings, name) {
        Some(scheme) => match applied(c.sub, scheme.ty) {
            Ty::Con(_, args) => {
                effect_names_keep(c, args);
            },
            _ => {},
        },
        None => {},
    }
}

/// A handler's `needs` clause as a closed row. `args` holds the converted type
/// arguments of each effect.
pub open spec fn row_of_refs(c: CheckerModel, refs: Seq<EffectRef>, args: Seq<Seq<Ty>>) -> Row {
    Row {
        effects: Seq::new(
            refs.len(),
            |i: int| Entry { name: canonical_effect(c, refs[i].name@), args: args[i] },
        ),
        tails: Seq::empty(),
    }
}

impl Checker {
    /// A handler's `needs` clause as a closed row.
    pub fn effect_row_from_refs(
        &self,
        refs: &Vec<EffectRef>,
        args: Vec<Vec<Type>>,
    ) -> (r: EffectRow)
        requires
            args.len() == refs.len(),
        ensures
            r@ == row_of_refs(self.deep_view(), refs@, args.deep_view()),
    {
        broadcast use group_type_models;

        let mut effects: Vec<EffectEntry> = Vec::new();
        let mut i: usize = 0;
        while i < refs.len()
            invariant
                i <= refs.len(),
                args.len() == refs.len(),
                effects.len() == i,
                forall|j: int|
                    0 <= j < i ==> #[trigger] effects.deep_view()[j] == (Entry {
                        name: canonical_effect(self.deep_view(), refs@[j].name@),
                        args: args.deep_view()[j],
                    }),
            decreases refs.len() - i,
        {
            broadcast use group_type_models;

            let entry = EffectEntry {
                name: self.canonical_effect_name(refs[i].name.as_str()),
                args: args[i].dup(),
            };
            proof {
                crate::types::entry_model_parts(entry);
            }
            push_value(&mut effects, entry);
            i = i + 1;
        }
        let tails: Vec<Type> = Vec::new();
        let row = EffectRow { effects, tails };
        proof {
            crate::types::row_model_parts(row);
            assert(tails.deep_view() =~= Seq::empty());
            assert(effects.deep_view() =~= row_of_refs(
                self.deep_view(),
                refs@,
                args.deep_view(),
            ).effects);
        }
        row
    }
}

/// A row that covers a body covers it whatever the place and the label, and an
/// open row covers every body.
pub proof fn open_rows_cover(body: Row, declared: Row, label: Seq<char>, span: Span)
    requires
        declared.tails.len() > 0,
    ensures
        effects_covered(body, declared, label, span) is Ok,
{
}

/// A closed row covers a body just where it names every effect of the body.
pub proof fn closed_rows_cover_what_they_name(
    body: Row,
    declared: Row,
    label: Seq<char>,
    span: Span,
)
    requires
        declared.tails.len() == 0,
    ensures
        effects_covered(body, declared, label, span) is Ok <==> forall|i: int|
            0 <= i < body.effects.len() ==> names_effect(
                declared.effects,
                #[trigger] body.effects[i],
            ),
{
    undeclared_is_empty(declared.effects, body.effects);
}

proof fn undeclared_is_empty(declared: Seq<Entry>, body: Seq<Entry>)
    ensures
        undeclared_in(declared, body).len() == 0 <==> forall|i: int|
            0 <= i < body.len() ==> names_effect(declared, #[trigger] body[i]),
    decreases body.len(),
{
    if body.len() > 0 {
        let init = body.drop_last();
        undeclared_is_empty(declared, init);
        if undeclared_in(declared, body).len() == 0 {
            assert forall|i: int| 0 <= i < body.len() implies names_effect(
                declared,
                #[trigger] body[i],
            ) by {
                if i < init.len() {
                    assert(init[i] == body[i]);
                }
            }
        }
        if forall|i: int| 0 <= i < body.len() ==> names_effect(declared, #[trigger] body[i]) {
            assert forall|i: int| 0 <= i < init.len() implies names_effect(
                declared,
                #[trigger] init[i],
            ) by {
                assert(init[i] == body[i]);
            }
            assert(names_effect(declared, body[body.len() - 1]));
        }
    }
}

/// The kind of a variable.
pub open spec fn kind_of_var(c: CheckerModel, id: u32) -> Kind {
    match at_key(c.var_kinds, id) {
        Some(kind) => kind,
        None => Kind::Star,
    }
}

/// The kind that an argument of an effect must have: that of the parameter, if the
/// effect has it.
pub open spec fn effect_arg_kind(c: CheckerModel, r: EffectRef, i: int) -> Kind {
    match at_key(c.effects, resolved_name(c.resolution.effect_refs, r.id, r.name@)) {
        Some(info) => if i < info.type_params.len() {
            kind_of_var(c, info.type_params[i])
        } else {
            Kind::Star
        },
        None => Kind::Star,
    }
}

impl Checker {
    /// The kind of a variable.
    pub fn var_kind(&self, id: u32) -> (r: Kind)
        ensures
            r == kind_of_var(self.deep_view(), id),
    {
        match self.var_kinds.get(&id) {
            Some(kind) => *kind,
            None => Kind::Star,
        }
    }

    /// The kinds that the arguments of an effect must have.
    pub fn effect_arg_kinds(&self, effect_ref: &EffectRef) -> (r: Vec<Kind>)
        ensures
            r@ == Seq::new(
                effect_ref.type_args@.len(),
                |i: int| effect_arg_kind(self.deep_view(), *effect_ref, i),
            ),
    {
        let name = self.resolved_effect_name(effect_ref.id, effect_ref.name.as_str());
        let info = self.effects.get(&name);
        let ghost c = self.deep_view();
        let mut kinds: Vec<Kind> = Vec::new();
        let mut i: usize = 0;
        while i < effect_ref.type_args.len()
            invariant
                i <= effect_ref.type_args.len(),
                c == self.deep_view(),
                info.deep_view() == at_key(
                    c.effects,
                    resolved_name(c.resolution.effect_refs, effect_ref.id, effect_ref.name@),
                ),
                kinds.len() == i,
                forall|j: int| 0 <= j < i ==> #[trigger] kinds@[j] == effect_arg_kind(
                    c,
                    *effect_ref,
                    j,
                ),
            decreases effect_ref.type_args.len() - i,
        {
            let kind = match info {
                Some(info) => {
                    assert(info.type_params.deep_view().len() == info.type_params.len());
                    if i < info.type_params.len() {
                        self.var_kind(info.type_params[i])
                    } else {
                        Kind::Star
                    }
                },
                None => Kind::Star,
            };
            kinds.push(kind);
            i = i + 1;
        }
        assert(kinds@ =~= Seq::new(
            effect_ref.type_args@.len(),
            |i: int| effect_arg_kind(self.deep_view(), *effect_ref, i),
        ));
        kinds
    }
}

/// The arms of a handler handle just the effects of their operations, besides those that
/// are handled already.
pub proof fn arms_handle_their_effects(
    c: CheckerModel,
    acc: Seq<Seq<char>>,
    items: Seq<(NodeId, Seq<char>, Option<Seq<char>>)>,
    effect: Seq<char>,
)
    ensures
        with_all_arms_handled(c, acc, items).contains(effect) <==> acc.contains(effect) || exists|
            i: int,
        |
            0 <= i < items.len() && arm_effect(c, #[trigger] items[i]) == Some(effect),
    decreases items.len(),
{
    if items.len() > 0 {
        let init = items.drop_last();
        let before = with_all_arms_handled(c, acc, init);
        arms_handle_their_effects(c, acc, init, effect);
        assert(items[items.len() - 1] == items.last());
        assert(forall|i: int| 0 <= i < init.len() ==> #[trigger] init[i] == items[i]);
        assert(forall|i: int| 0 <= i < init.len() ==> #[trigger] items[i] == init[i]);
        if let Some(e) = arm_effect(c, items.last()) {
            add_new_contains(before, seq![e], effect);
            assert(seq![e][0] == e);
            assert(seq![e].contains(effect) <==> effect == e);
        }
    }
}

/// Whether two states know the same handlers and names.
pub open spec fn knows_the_same(a: CheckerModel, b: CheckerModel) -> bool {
    &&& a.handlers == b.handlers
    &&& a.resolution == b.resolution
    &&& a.env == b.env
    &&& a.sub == b.sub
    &&& a.effects == b.effects
    &&& a.scope_map == b.scope_map
    &&& a.current_module == b.current_module
}

proof fn reading_handlers_keeps_what_is_known(c: CheckerModel, args: Seq<Ty>)
    ensures
        knows_the_same(c, effect_names_in(c, args).0),
    decreases args.len(),
{
    if args.len() > 0 {
        reading_handlers_keeps_what_is_known(c, args.drop_last());
    }
}

/// A type of handlers names the effects of its arguments, in order. Qualified names are
/// taken as they are.
pub proof fn handler_types_name_their_effects(c: CheckerModel, args: Seq<Ty>)
    requires
        forall|i: int| 0 <= i < args.len() ==> applied(c.sub, #[trigger] args[i]) is Con,
    ensures
        ({
            let names = effect_names_in(c, args).1;
            &&& names.len() == args.len()
            &&& forall|i: int|
                0 <= i < args.len() ==> (applied(c.sub, #[trigger] args[i]) matches Ty::Con(
                    name,
                    _,
                ) ==> names[i] == normalized_effect(c, name) && (name.contains('.')
                    ==> names[i] == name))
        }),
    decreases args.len(),
{
    if args.len() > 0 {
        let init = args.drop_last();
        assert(args[args.len() - 1] == args.last());
        assert(forall|i: int| 0 <= i < init.len() ==> #[trigger] init[i] == args[i]);
        handler_types_name_their_effects(c, init);
        reading_handlers_keeps_what_is_known(c, init);
        let before = effect_names_in(c, init);
        let names = effect_names_in(c, args).1;
        if let Ty::Con(name, _) = applied(c.sub, args.last()) {
            assert(normalized_effect(before.0, name) == normalized_effect(c, name));
        }
        assert forall|i: int| 0 <= i < args.len() implies (applied(
            c.sub,
            #[trigger] args[i],
        ) matches Ty::Con(name, _) ==> names[i] == normalized_effect(c, name) && (name.contains('.')
            ==> names[i] == name)) by {
            if i < init.len() {
                assert(init[i] == args[i]);
                assert(names[i] == before.1[i]);
            }
        }
    }
}

/// The effects of each handler that is registered are handled where the handler is named,
/// and what is handled already stays so.
pub proof fn named_handlers_handle_their_effects(
    acc: (CheckerModel, Seq<Seq<char>>),
    items: Seq<(NodeId, Seq<char>)>,
    effect: Seq<char>,
)
    ensures
        ({
            let after = with_all_named_handled(acc, items);
            &&& knows_the_same(acc.0, after.0)
            &&& acc.1.contains(effect) ==> after.1.contains(effect)
            &&& forall|i: int|
                0 <= i < items.len() ==> (at_key(
                    acc.0.handlers,
                    resolved_name(
                        acc.0.resolution.handler_refs,
                        (#[trigger] items[i]).0,
                        items[i].1,
                    ),
                ) matches Some(info) ==> info.effects.contains(effect) ==> after.1.contains(
                    effect,
                ))
            &&& after.1.contains(effect) ==> acc.1.contains(effect) || exists|i: int|
                0 <= i < items.len() && handles(acc.0, #[trigger] items[i], effect)
        }),
    decreases items.len(),
{
    if items.len() > 0 {
        let init = items.drop_last();
        let last = items.last();
        let before = with_all_named_handled(acc, init);
        let after = with_all_named_handled(acc, items);
        named_handlers_handle_their_effects(acc, init, effect);
        assert(items[items.len() - 1] == last);
        assert(forall|i: int| 0 <= i < init.len() ==> #[trigger] init[i] == items[i]);
        assert(forall|i: int| 0 <= i < init.len() ==> #[trigger] items[i] == init[i]);
        let name = resolved_name(before.0.resolution.handler_refs, last.0, last.1);
        match at_key(before.0.handlers, name) {
            Some(info) => {
                add_new_contains(before.1, info.effects, effect);
            },
            None => {
                if let Some(scheme) = at_key(before.0.env.bindings, name) {
                    if let Ty::Con(con, args) = applied(before.0.sub, scheme.ty) {
                        reading_handlers_keeps_what_is_known(before.0, args);
                        same_knowledge_names_the_same(before.0, acc.0, args);
                    }
                }
                if let Some(effects) = env_handler_effects(before.0, name).1 {
                    add_new_contains(before.1, effects, effect);
                }
            },
        }
        if after.1.contains(effect) && !before.1.contains(effect) {
            assert(handles(acc.0, items[items.len() - 1], effect));
        }
    }
}

proof fn same_knowledge_names_the_same(a: CheckerModel, b: CheckerModel, args: Seq<Ty>)
    requires
        knows_the_same(a, b),
    ensures
        effect_names_in(a, args).1 == effect_names_in(b, args).1,
    decreases args.len(),
{
    if args.len() > 0 {
        same_knowledge_names_the_same(a, b, args.drop_last());
        reading_handlers_keeps_what_is_known(a, args.drop_last());
        reading_handlers_keeps_what_is_known(b, args.drop_last());
    }
}

/// Whether the handler that a name stands for handles an effect: as a registered handler,
/// or by the type that it is bound to.
pub open spec fn handles(
    c: CheckerModel,
    named: (NodeId, Seq<char>),
    effect: Seq<char>,
) -> bool {
    let name = resolved_name(c.resolution.handler_refs, named.0, named.1);
    match at_key(c.handlers, name) {
        Some(info) => info.effects.contains(effect),
        None => env_handler_effects(c, name).1 matches Some(effects) && effects.contains(effect),
    }
}

/// An effect has one canonical name, however its name is qualified where it is used: that
/// of the module that it comes from.
pub proof fn effects_have_one_canonical_name(
    c: CheckerModel,
    a: Seq<char>,
    b: Seq<char>,
    module: Seq<char>,
)
    requires
        effect_named(c, a) matches Some(info) && info.source_module == Some(module),
        effect_named(c, b) == effect_named(c, a),
        last_segment(a) == last_segment(b),
    ensures
        canonical_effect(c, a) == canonical_effect(c, b),
        canonical_effect(c, a) == dotted(module, last_segment(b)),
{
}

/// A name stands for an effect only where one is registered: under the name itself, under
/// what the scope has for it, or as one of the module's own.
pub proof fn found_effects_are_registered(c: CheckerModel, name: Seq<char>)
    ensures
        has_key(c.effects, name) ==> effect_named(c, name) == at_key(c.effects, name),
        effect_named(c, name) is Some ==> {
            ||| has_key(c.effects, name)
            ||| lookup(c.scope_map.effects, name) matches Some(canonical) && has_key(
                c.effects,
                canonical,
            )
            ||| c.current_module matches Some(module) && has_key(c.effects, dotted(module, name))
        },
{
}

} // verus!
