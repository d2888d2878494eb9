//! Instances of effect operations.

use vstd::prelude::*;
use crate::checker::{Checker, CheckerModel, TraitStateModel};
use crate::codegen_info::{find_op, sig_named};
use crate::diagnostics::{an_error_at, Diag, Diagnostic};
use crate::effects::{
    bare_op, is_local_effect, qualified_effect, BareEffectOpResolution, BareOp,
};
use crate::handlers::{declares, named_sigs_are_declared};
use crate::infos::{EffectOpSig, OpModel};
use crate::scope::lookup;
use crate::seqs::{add_new, add_new_contains, filter_contains, push_contains, push_new};
use crate::table::{at_key, distinct_keys, has_key, put, put_then_get, Table};
use crate::text::{concat, concat3, concat5, join_text, joined};
use crate::token::Span;
use crate::type_vars::{
    collect_free_row_vars, collect_free_vars, replace_vars, replace_vars_in_all,
    replace_vars_in_effect_row, replace_vars_in_fields, replaced, replaced_all, replaced_fields,
    replaced_row, row_vars, vars_of, with_free,
};
use crate::types::{Ty, Type};
use crate::values::{contains_value, outcome, push_value, Dup};

verus! {

/// The variables of a constraint: the one that it is on, then those of the further
/// arguments.
pub open spec fn with_constraint_vars(vars: Seq<u32>, c: (Seq<char>, u32, Seq<Ty>)) -> Seq<u32> {
    with_types_vars(add_new(vars, seq![c.1]), c.2)
}

pub open spec fn with_type_vars(vars: Seq<u32>, t: Ty) -> Seq<u32> {
    with_free(Seq::empty(), vars, vars_of(t))
}

pub open spec fn with_param_vars(vars: Seq<u32>, p: (Seq<char>, Ty)) -> Seq<u32> {
    with_free(Seq::empty(), vars, vars_of(p.1))
}

pub open spec fn with_types_vars(acc: Seq<u32>, items: Seq<Ty>) -> Seq<u32>
    decreases items.len(),
{
    if items.len() == 0 {
        acc
    } else {
        with_type_vars(with_types_vars(acc, items.drop_last()), items.last())
    }
}

pub open spec fn with_params_vars(acc: Seq<u32>, items: Seq<(Seq<char>, Ty)>) -> Seq<u32>
    decreases items.len(),
{
    if items.len() == 0 {
        acc
    } else {
        with_param_vars(with_params_vars(acc, items.drop_last()), items.last())
    }
}

pub open spec fn with_constraints_vars(
    acc: Seq<u32>,
    items: Seq<(Seq<char>, u32, Seq<Ty>)>,
) -> Seq<u32>
    decreases items.len(),
{
    if items.len() == 0 {
        acc
    } else {
        with_constraint_vars(with_constraints_vars(acc, items.drop_last()), items.last())
    }
}

/// The variables of an operation's signature, each once.
pub open spec fn op_vars(op: OpModel) -> Seq<u32> {
    let vars = with_params_vars(Seq::empty(), op.params);
    let vars = with_type_vars(vars, op.return_type);
    let vars = with_free(Seq::empty(), vars, row_vars(op.needs));
    with_constraints_vars(vars, op.constraints)
}

/// The variable that a constraint is on, once variables are replaced.
pub open spec fn replaced_var(m: Map<u32, Ty>, id: u32) -> u32 {
    if m.dom().contains(id) {
        match m[id] {
            Ty::Var(fresh) => fresh,
            _ => id,
        }
    } else {
        id
    }
}

pub open spec fn replaced_constraint(m: Map<u32, Ty>, c: (Seq<char>, u32, Seq<Ty>)) -> (
    Seq<char>,
    u32,
    Seq<Ty>,
) {
    (c.0, replaced_var(m, c.1), replaced_all(c.2, m))
}

/// An operation with its variables replaced.
pub open spec fn replaced_op(op: OpModel, effect: Seq<char>, m: Map<u32, Ty>) -> OpModel {
    OpModel {
        name: op.name,
        effect_name: effect,
        params: replaced_fields(op.params, m),
        return_type: replaced(op.return_type, m),
        needs: replaced_row(op.needs, m),
        constraints: op.constraints.map_values(
            |c: (Seq<char>, u32, Seq<Ty>)| replaced_constraint(m, c),
        ),
    }
}

/// Fresh variables for some variables: `next`, the one after it and so on, for
/// those that have none and are not among `except`.
pub open spec fn fresh_for(
    m: Map<u32, Ty>,
    next: int,
    except: Seq<u32>,
    vars: Seq<u32>,
) -> (Map<u32, Ty>, int)
    decreases vars.len(),
{
    if vars.len() == 0 {
        (m, next)
    } else {
        let before = fresh_for(m, next, except, vars.drop_last());
        if except.contains(vars.last()) || before.0.dom().contains(vars.last()) {
            before
        } else {
            (before.0.insert(vars.last(), Ty::Var(before.1 as u32)), before.1 + 1)
        }
    }
}

/// One fresh variable for each of some, the later ones over the earlier ones.
pub open spec fn fresh_each(next: int, vars: Seq<u32>) -> Map<u32, Ty>
    decreases vars.len(),
{
    if vars.len() == 0 {
        Map::empty()
    } else {
        fresh_each(next, vars.drop_last()).insert(
            vars.last(),
            Ty::Var((next + vars.len() - 1) as u32),
        )
    }
}

proof fn fresh_for_bounds(m: Map<u32, Ty>, next: int, except: Seq<u32>, vars: Seq<u32>)
    ensures
        next <= fresh_for(m, next, except, vars).1 <= next + vars.len(),
    decreases vars.len(),
{
    if vars.len() > 0 {
        fresh_for_bounds(m, next, except, vars.drop_last());
    }
}

/// The variables of the parameters of an effect within the current function, and
/// the state in which they are kept.
pub open spec fn effect_vars(
    c: CheckerModel,
    effect: Seq<char>,
    type_params: Seq<u32>,
) -> (CheckerModel, Map<u32, Ty>) {
    match at_key(c.type_param_cache, effect) {
        Some(m) => (c, m),
        None => {
            let m = fresh_each(c.next_var as int, type_params);
            (
                CheckerModel {
                    next_var: (c.next_var + type_params.len()) as u32,
                    type_param_cache: put(c.type_param_cache, effect, m),
                    ..c
                },
                m,
            )
        },
    }
}

/// The source name of a constrained variable is known of its instance too.
pub open spec fn with_var_name(
    m: Map<u32, Ty>,
    names: Seq<(u32, Seq<char>)>,
    c: (Seq<char>, u32, Seq<Ty>),
) -> Seq<(u32, Seq<char>)> {
    match at_key(names, c.1) {
        Some(name) => if m.dom().contains(c.1) {
            match m[c.1] {
                Ty::Var(fresh) => put(names, fresh, name),
                _ => names,
            }
        } else {
            names
        },
        None => names,
    }
}

pub open spec fn with_var_names(
    m: Map<u32, Ty>,
    acc: Seq<(u32, Seq<char>)>,
    items: Seq<(Seq<char>, u32, Seq<Ty>)>,
) -> Seq<(u32, Seq<char>)>
    decreases items.len(),
{
    if items.len() == 0 {
        acc
    } else {
        with_var_name(m, with_var_names(m, acc, items.drop_last()), items.last())
    }
}

pub open spec fn with_instance_names(
    c: CheckerModel,
    op: OpModel,
    m: Map<u32, Ty>,
) -> CheckerModel {
    CheckerModel {
        trait_state: TraitStateModel {
            where_bound_var_names: with_var_names(
                m,
                c.trait_state.where_bound_var_names,
                op.constraints,
            ),
            ..c.trait_state
        },
        ..c
    }
}

/// What the variables of an operation are replaced by in one use of it: the
/// parameters of the effect by the variables that all operations of the effect
/// share in the current function, other variables by fresh ones.
pub open spec fn op_instance(
    c: CheckerModel,
    effect: Seq<char>,
    op: OpModel,
    type_params: Seq<u32>,
) -> (CheckerModel, OpModel) {
    let vars = op_vars(op);
    if type_params.len() == 0 {
        if vars.len() == 0 {
            (c, op)
        } else {
            let fresh = fresh_for(Map::empty(), c.next_var as int, Seq::empty(), vars);
            let c1 = CheckerModel { next_var: fresh.1 as u32, ..c };
            (with_instance_names(c1, op, fresh.0), replaced_op(op, effect, fresh.0))
        }
    } else {
        let shared = effect_vars(c, effect, type_params);
        let fresh = fresh_for(shared.1, shared.0.next_var as int, type_params, vars);
        let c1 = CheckerModel { next_var: fresh.1 as u32, ..shared.0 };
        (with_instance_names(c1, op, fresh.0), replaced_op(op, effect, fresh.0))
    }
}

/// There are variables enough left for one use of an operation.
pub open spec fn vars_suffice(c: CheckerModel, op: OpModel, type_params: Seq<u32>) -> bool {
    c.next_var + type_params.len() + op_vars(op).len() <= u32::MAX
}

fn add_types_vars(acc: &mut Vec<u32>, items: &Vec<Type>)
    ensures
        final(acc)@ == with_types_vars(old(acc)@, items.deep_view()),
{
    let ghost a0 = acc@;
    let ghost all = items.deep_view();
    let mut i: usize = 0;
    assert(all.take(0) =~= Seq::empty());
    while i < items.len()
        invariant
            i <= items.len(),
            all == items.deep_view(),
            acc@ == with_types_vars(a0, all.take(i as int)),
        decreases items.len() - i,
    {
        proof {
            assert(all.take(i + 1).drop_last() =~= all.take(i as int));
            assert(all.take(i + 1).last() == all[i as int]);
        }
        collect_free_vars(&items[i], acc);
        i = i + 1;
    }
    assert(all.take(i as int) =~= all);
}

fn add_params_vars(acc: &mut Vec<u32>, items: &Vec<(String, Type)>)
    ensures
        final(acc)@ == with_params_vars(old(acc)@, items.deep_view()),
{
    let ghost a0 = acc@;
    let ghost all = items.deep_view();
    let mut i: usize = 0;
    assert(all.take(0) =~= Seq::empty());
    while i < items.len()
        invariant
            i <= items.len(),
            all == items.deep_view(),
            acc@ == with_params_vars(a0, all.take(i as int)),
        decreases items.len() - i,
    {
        proof {
            assert(all.take(i + 1).drop_last() =~= all.take(i as int));
            assert(all.take(i + 1).last() == all[i as int]);
        }
        collect_free_vars(&items[i].1, acc);
        i = i + 1;
    }
    assert(all.take(i as int) =~= all);
}

fn add_constraints_vars(acc: &mut Vec<u32>, items: &Vec<(String, u32, Vec<Type>)>)
    ensures
        final(acc)@ == with_constraints_vars(old(acc)@, items.deep_view()),
{
    let ghost a0 = acc@;
    let ghost all = items.deep_view();
    let mut i: usize = 0;
    assert(all.take(0) =~= Seq::empty());
    while i < items.len()
        invariant
            i <= items.len(),
            all == items.deep_view(),
            acc@ == with_constraints_vars(a0, all.take(i as int)),
        decreases items.len() - i,
    {
        proof {
            assert(all.take(i + 1).drop_last() =~= all.take(i as int));
            assert(all.take(i + 1).last() == all[i as int]);
        }
        proof {
            crate::seqs::add_new_one(acc@, items@[i as int].1);
            assert(acc.deep_view() =~= acc@);
        }
        push_new(acc, items[i].1);
        assert(acc.deep_view() =~= acc@);
        add_types_vars(acc, &items[i].2);
        i = i + 1;
    }
    assert(all.take(i as int) =~= all);
}

/// The variables of an operation's signature, each once.
pub fn collect_op_vars(op: &EffectOpSig) -> (r: Vec<u32>)
    ensures
        r@ == op_vars(op.deep_view()),
{
    let mut vars: Vec<u32> = Vec::new();
    add_params_vars(&mut vars, &op.params);
    collect_free_vars(&op.return_type, &mut vars);
    collect_free_row_vars(&op.needs, &mut vars);
    add_constraints_vars(&mut vars, &op.constraints);
    vars
}

/// Constraints with their variables replaced.
pub fn replace_in_constraints(
    m: &Table<u32, Type>,
    v: &Vec<(String, u32, Vec<Type>)>,
) -> (r: Vec<(String, u32, Vec<Type>)>)
    ensures
        r.deep_view() == v.deep_view().map_values(|x: (Seq<char>, u32, Seq<Ty>)| replaced_constraint(m.deep_view(), x)),
{
    let mut out: Vec<(String, u32, Vec<Type>)> = Vec::new();
    let mut i: usize = 0;
    while i < v.len()
        invariant
            i <= v.len(),
            out.len() == i,
            forall|j: int| 0 <= j < i ==> #[trigger] out.deep_view()[j] == replaced_constraint(
                m.deep_view(),
                v.deep_view()[j],
            ),
        decreases v.len() - i,
    {
        let id = match m.get(&v[i].1) {
            Some(Type::Var(fresh)) => *fresh,
            _ => v[i].1,
        };
        let c = (v[i].0.clone(), id, replace_vars_in_all(&v[i].2, m));
        push_value(&mut out, c);
        i = i + 1;
    }
    assert(out.deep_view() =~= v.deep_view().map_values(|x: (Seq<char>, u32, Seq<Ty>)| replaced_constraint(m.deep_view(), x)));
    out
}

fn replace_in_op(op: &EffectOpSig, effect: &str, m: &Table<u32, Type>) -> (r: EffectOpSig)
    ensures
        r.deep_view() == replaced_op(op.deep_view(), effect@, m.deep_view()),
{
    EffectOpSig {
        name: op.name.clone(),
        effect_name: effect.to_owned(),
        params: replace_vars_in_fields(&op.params, m),
        return_type: replace_vars(&op.return_type, m),
        needs: replace_vars_in_effect_row(&op.needs, m),
        constraints: replace_in_constraints(m, &op.constraints),
    }
}

impl Checker {
    /// Adds fresh variables for those that have none and are not among `except`.
    fn freshen(&mut self, m: &mut Table<u32, Type>, except: &Vec<u32>, vars: &Vec<u32>)
        requires
            old(self).next_var + vars.len() <= u32::MAX,
        ensures
            ({
                let fresh = fresh_for(
                    old(m).deep_view(),
                    old(self).next_var as int,
                    except@,
                    vars@,
                );
                &&& final(m).deep_view() == fresh.0
                &&& 0 <= fresh.1 <= u32::MAX
                &&& final(self).deep_view() == (CheckerModel {
                    next_var: fresh.1 as u32,
                    ..old(self).deep_view()
                })
            }),
    {
        let ghost c0 = self.deep_view();
        let ghost m0 = m.deep_view();
        let ghost all = vars@;
        let mut i: usize = 0;
        assert(all.take(0) =~= Seq::empty());
        while i < vars.len()
            invariant
                i <= vars.len(),
                all == vars@,
                c0.next_var + vars.len() <= u32::MAX,
                m.deep_view() == fresh_for(m0, c0.next_var as int, except@, all.take(i as int)).0,
                self.next_var == fresh_for(m0, c0.next_var as int, except@, all.take(i as int)).1,
                self.deep_view() == (CheckerModel { next_var: self.next_var, ..c0 }),
            decreases vars.len() - i,
        {
            proof {
                assert(all.take(i + 1).drop_last() =~= all.take(i as int));
                assert(all.take(i + 1).last() == all[i as int]);
                fresh_for_bounds(m0, c0.next_var as int, except@, all.take(i as int));
                assert(except.deep_view() =~= except@);
            }
            if !contains_value(except, &vars[i]) && !m.contains_key(&vars[i]) {
                let id = self.fresh_var();
                m.insert(vars[i], Type::Var(id));
            }
            i = i + 1;
        }
        assert(all.take(i as int) =~= all);
    }

    /// The variables of the parameters of an effect within the current function.
    fn shared_effect_vars(&mut self, effect: &str, type_params: &Vec<u32>) -> (r: Table<u32, Type>)
        requires
            old(self).next_var + type_params.len() <= u32::MAX,
        ensures
            (final(self).deep_view(), r.deep_view()) == effect_vars(
                old(self).deep_view(),
                effect@,
                type_params@,
            ),
    {
        if let Some(m) = self.type_param_cache.named(effect) {
            return m.dup();
        }
        let ghost c0 = self.deep_view();
        let ghost all = type_params@;
        let mut m: Table<u32, Type> = Table::new();
        let mut i: usize = 0;
        assert(all.take(0) =~= Seq::empty());
        while i < type_params.len()
            invariant
                i <= type_params.len(),
                all == type_params@,
                c0.next_var + type_params.len() <= u32::MAX,
                m.deep_view() == fresh_each(c0.next_var as int, all.take(i as int)),
                self.next_var == c0.next_var + i,
                self.deep_view() == (CheckerModel { next_var: self.next_var, ..c0 }),
            decreases type_params.len() - i,
        {
            proof {
                assert(all.take(i + 1).drop_last() =~= all.take(i as int));
                assert(all.take(i + 1).last() == all[i as int]);
            }
            let id = self.fresh_var();
            m.insert(type_params[i], Type::Var(id));
            i = i + 1;
        }
        assert(all.take(i as int) =~= all);
        self.type_param_cache.insert(effect.to_owned(), m.dup());
        m
    }

    /// Carries the source names of constrained variables over to their instances.
    fn propagate_op_constraint_var_names(&mut self, op: &EffectOpSig, m: &Table<u32, Type>)
        ensures
            final(self).deep_view() == with_instance_names(
                old(self).deep_view(),
                op.deep_view(),
                m.deep_view(),
            ),
    {
        name_instances(m, &mut self.trait_state.where_bound_var_names, &op.constraints);
    }

    /// One use of an operation: its signature with the variables of the use.
    pub fn instantiate_effect_op(
        &mut self,
        effect_name: &str,
        op: &EffectOpSig,
        type_params: &Vec<u32>,
    ) -> (r: EffectOpSig)
        requires
            vars_suffice(old(self).deep_view(), op.deep_view(), type_params@),
        ensures
            (final(self).deep_view(), r.deep_view()) == op_instance(
                old(self).deep_view(),
                effect_name@,
                op.deep_view(),
                type_params@,
            ),
    {
        let vars = collect_op_vars(op);
        if type_params.len() == 0 {
            if vars.len() == 0 {
                return op.dup();
            }
            let none: Vec<u32> = Vec::new();
            let mut m: Table<u32, Type> = Table::new();
            assert(none@ =~= Seq::<u32>::empty());
            self.freshen(&mut m, &none, &vars);
            self.propagate_op_constraint_var_names(op, &m);
            return replace_in_op(op, effect_name, &m);
        }
        let mut m = self.shared_effect_vars(effect_name, type_params);
        self.freshen(&mut m, type_params, &vars);
        self.propagate_op_constraint_var_names(op, &m);
        replace_in_op(op, effect_name, &m)
    }
}

fn name_instances(
    m: &Table<u32, Type>,
    acc: &mut Table<u32, String>,
    items: &Vec<(String, u32, Vec<Type>)>,
)
    ensures
        final(acc).order() == with_var_names(m.deep_view(), old(acc).order(), items.deep_view()),
{
    let ghost a0 = acc.order();
    let ghost all = items.deep_view();
    let mut i: usize = 0;
    assert(all.take(0) =~= Seq::empty());
    while i < items.len()
        invariant
            i <= items.len(),
            all == items.deep_view(),
            acc.order() == with_var_names(m.deep_view(), a0, all.take(i as int)),
        decreases items.len() - i,
    {
        proof {
            assert(all.take(i + 1).drop_last() =~= all.take(i as int));
            assert(all.take(i + 1).last() == all[i as int]);
        }
        let id = items[i].1;
        let name = match acc.get(&id) {
            Some(name) => Some(name.clone()),
            None => None,
        };
        if let Some(name) = name {
            if let Some(Type::Var(fresh)) = m.get(&id) {
                acc.insert(*fresh, name);
            }
        }
        i = i + 1;
    }
    assert(all.take(i as int) =~= all);
}

/// The operation that a use means, with its effect and the parameters of the
/// effect; or why there is none.
pub open spec fn op_meant(
    c: CheckerModel,
    op: Seq<char>,
    qualifier: Option<Seq<char>>,
    span: Span,
) -> Result<(Seq<char>, OpModel, Seq<u32>), Diag> {
    match qualifier {
        Some(effect) => match qualified_effect(c, effect) {
            None => Err(an_error_at(span, "undefined effect: "@ + effect)),
            Some(canonical) => match at_key(c.effects, canonical) {
                None => Err(an_error_at(span, "undefined effect: "@ + effect)),
                Some(info) => match sig_named(info.ops, op) {
                    None => Err(
                        an_error_at(
                            span,
                            "effect '"@ + effect + "' has no operation '"@ + op + "'"@,
                        ),
                    ),
                    Some(sig) => Ok((canonical, sig, info.type_params)),
                },
            },
        },
        None => match bare_op(c, op) {
            BareOp::Missing => Err(an_error_at(span, "undefined effect operation: "@ + op)),
            BareOp::Ambiguous(candidates) => Err(
                an_error_at(
                    span,
                    "ambiguous effect operation '"@ + op + "': found in ["@ + joined(
                        candidates,
                        ", "@,
                    ) + "]; qualify the call (e.g. `"@ + candidates[0] + "."@ + op + "!`)"@,
                ),
            ),
            BareOp::Found(effect) => match at_key(c.effects, effect) {
                None => Err(an_error_at(span, "undefined effect operation: "@ + op)),
                Some(info) => match sig_named(info.ops, op) {
                    None => Err(an_error_at(span, "undefined effect operation: "@ + op)),
                    Some(sig) => Ok((effect, sig, info.type_params)),
                },
            },
        },
    }
}

/// A use of an operation: the signature with the variables of the use, or why
/// there is no such operation.
pub open spec fn op_used(
    c: CheckerModel,
    op: Seq<char>,
    qualifier: Option<Seq<char>>,
    span: Span,
) -> (CheckerModel, Result<OpModel, Diag>) {
    match op_meant(c, op, qualifier, span) {
        Err(e) => (c, Err(e)),
        Ok((effect, sig, type_params)) => {
            let used = op_instance(c, effect, sig, type_params);
            (used.0, Ok(used.1))
        },
    }
}

fn ambiguous_op_error(op: &str, candidates: &Vec<String>) -> (r: String)
    requires
        candidates.len() > 0,
    ensures
        r@ == "ambiguous effect operation '"@ + op@ + "': found in ["@ + joined(
            candidates.deep_view(),
            ", "@,
        ) + "]; qualify the call (e.g. `"@ + candidates.deep_view()[0] + "."@ + op@ + "!`)"@,
{
    let shown = join_text(candidates, ", ");
    let start = concat5(
        "ambiguous effect operation '",
        op,
        "': found in [",
        shown.as_str(),
        "]; qualify the call (e.g. `",
    );
    let middle = concat3(start.as_str(), candidates[0].as_str(), ".");
    concat3(middle.as_str(), op, "!`)")
}

impl Checker {
    /// The operation that a use means.
    fn find_effect_op(&self, op_name: &str, qualifier: Option<&str>, span: Span) -> (r: Result<
        (String, EffectOpSig, Vec<u32>),
        Diagnostic,
    >)
        ensures
            outcome(r) == op_meant(
                self.deep_view(),
                op_name@,
                match qualifier {
                    Some(q) => Some(q@),
                    None => None,
                },
                span,
            ),
    {
        match qualifier {
            Some(effect) => {
                let canonical = match self.resolve_effect_qualifier(effect) {
                    Some(canonical) => canonical,
                    None => {
                        return Err(
                            Diagnostic::error_at(span, concat("undefined effect: ", effect)),
                        );
                    },
                };
                let info = match self.effects.get(&canonical) {
                    Some(info) => info,
                    None => {
                        return Err(
                            Diagnostic::error_at(span, concat("undefined effect: ", effect)),
                        );
                    },
                };
                match find_op(&info.ops, op_name) {
                    Some(op) => Ok((canonical, op.dup(), info.type_params.dup())),
                    None => Err(
                        Diagnostic::error_at(
                            span,
                            concat5("effect '", effect, "' has no operation '", op_name, "'"),
                        ),
                    ),
                }
            },
            None => {
                let effect = match self.resolve_bare_effect_op(op_name) {
                    BareEffectOpResolution::Missing => {
                        return Err(
                            Diagnostic::error_at(
                                span,
                                concat("undefined effect operation: ", op_name),
                            ),
                        );
                    },
                    BareEffectOpResolution::Ambiguous(candidates) => {
                        proof {
                            ambiguous_is_not_empty(self.deep_view(), op_name@);
                            assert(candidates.deep_view().len() == candidates.len());
                        }
                        return Err(
                            Diagnostic::error_at(span, ambiguous_op_error(op_name, &candidates)),
                        );
                    },
                    BareEffectOpResolution::Found(effect) => effect,
                };
                let info = match self.effects.get(&effect) {
                    Some(info) => info,
                    None => {
                        return Err(
                            Diagnostic::error_at(
                                span,
                                concat("undefined effect operation: ", op_name),
                            ),
                        );
                    },
                };
                match find_op(&info.ops, op_name) {
                    Some(op) => Ok((effect, op.dup(), info.type_params.dup())),
                    None => Err(
                        Diagnostic::error_at(
                            span,
                            concat("undefined effect operation: ", op_name),
                        ),
                    ),
                }
            },
        }
    }

    /// A use of an operation by its name, which may be qualified.
    pub fn lookup_effect_op(
        &mut self,
        op_name: &str,
        qualifier: Option<&str>,
        span: Span,
    ) -> (r: Result<
        EffectOpSig,
        Diagnostic,
    >)
        requires
            ({
                let q = match qualifier {
                    Some(q) => Some(q@),
                    None => None,
                };
                op_meant(old(self).deep_view(), op_name@, q, span) matches Ok((_, sig, params))
                    ==> vars_suffice(old(self).deep_view(), sig, params)
            }),
        ensures
            (final(self).deep_view(), outcome(r)) == op_used(
                old(self).deep_view(),
                op_name@,
                match qualifier {
                    Some(q) => Some(q@),
                    None => None,
                },
                span,
            ),
    {
        match self.find_effect_op(op_name, qualifier, span) {
            Err(e) => Err(e),
            Ok((effect, op, type_params)) => {
                assert(type_params.deep_view() =~= type_params@);
                Ok(self.instantiate_effect_op(effect.as_str(), &op, &type_params))
            },
        }
    }
}

proof fn ambiguous_is_not_empty(c: CheckerModel, op: Seq<char>)
    ensures
        bare_op(c, op) matches BareOp::Ambiguous(candidates) ==> candidates.len() > 0,
{
    let chosen = crate::effects::chosen_effects(c.current_module, c.scope_map.effect_ops[op]);
    crate::sorting::sorting_is_determined(chosen, chosen);
    chosen.to_multiset_ensures();
    crate::sorting::sorted_texts(chosen).to_multiset_ensures();
}

/// Two uses of operations of one effect in one function share the variables of
/// the effect's parameters.
pub proof fn uses_share_effect_vars(c: CheckerModel, effect: Seq<char>, type_params: Seq<u32>)
    requires
        crate::table::distinct_keys(c.type_param_cache),
    ensures
        effect_vars(effect_vars(c, effect, type_params).0, effect, type_params).1 == effect_vars(
            c,
            effect,
            type_params,
        ).1,
        effect_vars(effect_vars(c, effect, type_params).0, effect, type_params).0 == effect_vars(
            c,
            effect,
            type_params,
        ).0,
{
    if at_key(c.type_param_cache, effect) is None {
        crate::table::put_then_get(
            c.type_param_cache,
            effect,
            fresh_each(c.next_var as int, type_params),
            effect,
        );
    }
}

/// Naming the variables of a use leaves the names of all other variables as they are.
pub proof fn instances_keep_other_names(
    m: Map<u32, Ty>,
    names: Seq<(u32, Seq<char>)>,
    constraints: Seq<(Seq<char>, u32, Seq<Ty>)>,
    id: u32,
)
    requires
        distinct_keys(names),
        forall|v: u32| #[trigger] m.dom().contains(v) ==> m[v] != Ty::Var(id),
    ensures
        distinct_keys(with_var_names(m, names, constraints)),
        at_key(with_var_names(m, names, constraints), id) == at_key(names, id),
    decreases constraints.len(),
{
    if constraints.len() > 0 {
        let before = with_var_names(m, names, constraints.drop_last());
        let k = constraints.last();
        instances_keep_other_names(m, names, constraints.drop_last(), id);
        if let Some(name) = at_key(before, k.1) {
            if m.dom().contains(k.1) {
                if let Ty::Var(fresh) = m[k.1] {
                    put_then_get(before, fresh, name, id);
                }
            }
        }
    }
}

proof fn free_are_added(vars: Seq<u32>, more: Seq<u32>, id: u32)
    ensures
        with_free(Seq::empty(), vars, more).contains(id) <==> vars.contains(id) || more.contains(
            id,
        ),
{
    let none = Seq::<u32>::empty();
    let keep = |v: u32| !none.contains(v);
    filter_contains(more, keep, id);
    add_new_contains(vars, more.filter(keep), id);
}

proof fn param_vars_are_added(acc: Seq<u32>, items: Seq<(Seq<char>, Ty)>, id: u32)
    ensures
        with_params_vars(acc, items).contains(id) <==> acc.contains(id) || exists|i: int|
            0 <= i < items.len() && vars_of((#[trigger] items[i]).1).contains(id),
    decreases items.len(),
{
    if items.len() > 0 {
        let init = items.drop_last();
        param_vars_are_added(acc, init, id);
        free_are_added(with_params_vars(acc, init), vars_of(items.last().1), id);
        assert(forall|i: int| 0 <= i < init.len() ==> #[trigger] items[i] == init[i]);
        assert(forall|i: int| 0 <= i < init.len() ==> items[i] == #[trigger] init[i]);
        assert(items[items.len() - 1] == items.last());
    }
}

proof fn types_vars_are_added(acc: Seq<u32>, items: Seq<Ty>, id: u32)
    ensures
        acc.contains(id) ==> with_types_vars(acc, items).contains(id),
    decreases items.len(),
{
    if items.len() > 0 {
        types_vars_are_added(acc, items.drop_last(), id);
        free_are_added(with_types_vars(acc, items.drop_last()), vars_of(items.last()), id);
    }
}

proof fn constraint_vars_are_added(
    acc: Seq<u32>,
    items: Seq<(Seq<char>, u32, Seq<Ty>)>,
    id: u32,
)
    ensures
        acc.contains(id) ==> with_constraints_vars(acc, items).contains(id),
        (exists|i: int| 0 <= i < items.len() && (#[trigger] items[i]).1 == id)
            ==> with_constraints_vars(acc, items).contains(id),
    decreases items.len(),
{
    if items.len() > 0 {
        let init = items.drop_last();
        constraint_vars_are_added(acc, init, id);
        let before = with_constraints_vars(acc, init);
        let k = items.last();
        add_new_contains(before, seq![k.1], id);
        types_vars_are_added(add_new(before, seq![k.1]), k.2, id);
        assert(seq![k.1][0] == k.1);
        if exists|i: int| 0 <= i < items.len() && (#[trigger] items[i]).1 == id {
            let i = choose|i: int| 0 <= i < items.len() && (#[trigger] items[i]).1 == id;
            if i < init.len() {
                assert(init[i] == items[i]);
            } else {
                assert(seq![k.1].contains(id));
            }
        }
    }
}

/// The variables of an operation include those of its parameters, of its result, of the
/// effects that it needs, and those that its constraints are on.
pub proof fn operations_list_their_variables(op: OpModel, id: u32)
    ensures
        (exists|i: int| 0 <= i < op.params.len() && vars_of((#[trigger] op.params[i]).1).contains(id))
            ==> op_vars(op).contains(id),
        vars_of(op.return_type).contains(id) ==> op_vars(op).contains(id),
        row_vars(op.needs).contains(id) ==> op_vars(op).contains(id),
        (exists|i: int| 0 <= i < op.constraints.len() && (#[trigger] op.constraints[i]).1 == id)
            ==> op_vars(op).contains(id),
{
    let a = with_params_vars(Seq::empty(), op.params);
    param_vars_are_added(Seq::empty(), op.params, id);
    let b = with_type_vars(a, op.return_type);
    free_are_added(a, vars_of(op.return_type), id);
    let c = with_free(Seq::empty(), b, row_vars(op.needs));
    free_are_added(b, row_vars(op.needs), id);
    constraint_vars_are_added(c, op.constraints, id);
}

/// Whether fresh variables are one for each: between two bounds, and no two the same.
pub open spec fn are_fresh(m: Map<u32, Ty>, known: Map<u32, Ty>, next: int, end: int) -> bool {
    &&& forall|v: u32| #[trigger]
        m.dom().contains(v) && !known.dom().contains(v) ==> (m[v] matches Ty::Var(id) && next <= id
            < end)
    &&& forall|v: u32, w: u32|
        #![trigger m.dom().contains(v), m.dom().contains(w)]
        m.dom().contains(v) && m.dom().contains(w) && !known.dom().contains(v)
            && !known.dom().contains(w) && v != w ==> m[v] != m[w]
}

proof fn fresh_for_each(m: Map<u32, Ty>, next: int, except: Seq<u32>, vars: Seq<u32>)
    requires
        0 <= next,
        next + vars.len() <= u32::MAX + 1,
    ensures
        ({
            let r = fresh_for(m, next, except, vars);
            &&& next <= r.1 <= next + vars.len()
            &&& m.submap_of(r.0)
            &&& are_fresh(r.0, m, next, r.1)
            &&& forall|v: u32| #[trigger]
                r.0.dom().contains(v) <==> m.dom().contains(v) || vars.contains(v)
                    && !except.contains(v)
        }),
    decreases vars.len(),
{
    if vars.len() > 0 {
        let init = vars.drop_last();
        fresh_for_each(m, next, except, init);
        let before = fresh_for(m, next, except, init);
        let r = fresh_for(m, next, except, vars);
        let last = vars.last();
        assert forall|v: u32| #[trigger]
            r.0.dom().contains(v) <==> m.dom().contains(v) || vars.contains(v)
                && !except.contains(v) by {
            assert(vars =~= init.push(last));
            push_contains(init, last, v);
            assert(before.0.dom().contains(v) <==> m.dom().contains(v) || init.contains(v)
                && !except.contains(v));
        }
        assert forall|v: u32| #[trigger]
            r.0.dom().contains(v) && !m.dom().contains(v) implies (r.0[v] matches Ty::Var(id)
            && next <= id < r.1) by {
            if v != last || before.0.dom().contains(last) {
                assert(before.0.dom().contains(v));
            }
        }
        assert forall|v: u32, w: u32|
            #![trigger r.0.dom().contains(v), r.0.dom().contains(w)]
            r.0.dom().contains(v) && r.0.dom().contains(w) && !m.dom().contains(v)
                && !m.dom().contains(w) && v != w implies r.0[v] != r.0[w] by {
            if r.0 != before.0 {
                if v == last {
                    assert(before.0.dom().contains(w));
                } else if w == last {
                    assert(before.0.dom().contains(v));
                } else {
                    assert(before.0.dom().contains(v) && before.0.dom().contains(w));
                }
            } else {
                assert(before.0.dom().contains(v) && before.0.dom().contains(w));
            }
        }
    }
}

/// Whether an operation is an instance of another one: all its parts have their
/// variables replaced in one way.
pub open spec fn is_instance(op: OpModel, effect: Seq<char>, m: Map<u32, Ty>, used: OpModel) -> bool {
    &&& used.name == op.name
    &&& used.effect_name == effect
    &&& used.params.len() == op.params.len()
    &&& forall|i: int|
        0 <= i < op.params.len() ==> (#[trigger] used.params[i]).0 == op.params[i].0
            && used.params[i].1 == replaced(op.params[i].1, m)
    &&& used.return_type == replaced(op.return_type, m)
    &&& used.needs == replaced_row(op.needs, m)
    &&& used.constraints.len() == op.constraints.len()
    &&& forall|i: int|
        0 <= i < op.constraints.len() ==> (#[trigger] used.constraints[i]).0
            == op.constraints[i].0 && used.constraints[i].2 == replaced_all(
            op.constraints[i].2,
            m,
        ) && (m.dom().contains(op.constraints[i].1) && m[op.constraints[i].1] is Var ==> Ty::Var(
            used.constraints[i].1,
        ) == m[op.constraints[i].1])
}

/// A use of an operation has variables of its own: each variable of the operation is
/// replaced by a fresh one, no two by the same, and all parts of the operation in one
/// way. The parameters of the effect are replaced by those that all uses in the function
/// share.
pub proof fn uses_have_variables_of_their_own(
    c: CheckerModel,
    effect: Seq<char>,
    op: OpModel,
    type_params: Seq<u32>,
) -> (m: Map<u32, Ty>)
    requires
        vars_suffice(c, op, type_params),
        op_vars(op).len() > 0 || type_params.len() > 0,
    ensures
        ({
            let used = op_instance(c, effect, op, type_params);
            let shared = if type_params.len() == 0 {
                Map::empty()
            } else {
                effect_vars(c, effect, type_params).1
            };
            &&& is_instance(op, effect, m, used.1)
            &&& shared.submap_of(m)
            &&& are_fresh(m, shared, c.next_var as int, used.0.next_var as int)
            &&& c.next_var <= used.0.next_var
            &&& forall|v: u32|
                op_vars(op).contains(v) && !type_params.contains(v) ==> #[trigger] m.dom().contains(
                    v,
                )
        }),
{
    let vars = op_vars(op);
    if type_params.len() == 0 {
        fresh_for_each(Map::empty(), c.next_var as int, Seq::empty(), vars);
        let none = Seq::<u32>::empty();
        assert forall|v: u32| vars.contains(v) && !type_params.contains(v) implies #[trigger] fresh_for(
            Map::empty(),
            c.next_var as int,
            none,
            vars,
        ).0.dom().contains(v) by {
            assert(!none.contains(v));
        }
        fresh_for(Map::empty(), c.next_var as int, none, vars).0
    } else {
        let shared = effect_vars(c, effect, type_params);
        fresh_for_each(shared.1, shared.0.next_var as int, type_params, vars);
        fresh_for(shared.1, shared.0.next_var as int, type_params, vars).0
    }
}

/// An operation that a use means is declared by its effect, under its name; that is the
/// effect that the use is qualified with, or else the only one that counts.
pub proof fn uses_mean_declared_operations(
    c: CheckerModel,
    op: Seq<char>,
    qualifier: Option<Seq<char>>,
    span: Span,
)
    requires
        op_meant(c, op, qualifier, span) is Ok,
    ensures
        ({
            let (effect, sig, params) = op_meant(c, op, qualifier, span)->Ok_0;
            let info = at_key(c.effects, effect)->0;
            &&& at_key(c.effects, effect) is Some
            &&& declares(info, op, sig)
            &&& params == info.type_params
            &&& match qualifier {
                Some(q) => qualified_effect(c, q) == Some(effect),
                None => bare_op(c, op) == BareOp::Found(effect),
            }
        }),
{
    let (effect, sig, params) = op_meant(c, op, qualifier, span)->Ok_0;
    named_sigs_are_declared(at_key(c.effects, effect)->0.ops, op);
}

/// A qualifier stands for a registered effect: what the scope says, or else the effect
/// of that name, or else that of the module.
pub proof fn qualifiers_name_registered_effects(c: CheckerModel, name: Seq<char>)
    ensures
        qualified_effect(c, name) matches Some(effect) ==> has_key(c.effects, effect),
        lookup(c.scope_map.effects, name) matches Some(known) ==> has_key(c.effects, known)
            ==> qualified_effect(c, name) == Some(known),
        lookup(c.scope_map.effects, name) is None && has_key(c.effects, name) ==> qualified_effect(
            c,
            name,
        ) == Some(name),
        qualified_effect(c, name) is None ==> !has_key(c.effects, name),
{
}

/// A bare operation stands for an effect that has it: of the module's own effects where
/// one has it, else of the others. Where several count, it stands for none.
pub proof fn bare_operations_are_of_one_effect(c: CheckerModel, op: Seq<char>)
    ensures
        bare_op(c, op) matches BareOp::Found(effect) ==> {
            let all = c.scope_map.effect_ops[op];
            &&& c.scope_map.effect_ops.dom().contains(op)
            &&& all.contains(effect)
            &&& is_local_effect(c.current_module, effect) || forall|i: int|
                0 <= i < all.len() ==> !is_local_effect(c.current_module, #[trigger] all[i])
            &&& forall|i: int|
                0 <= i < all.len() && is_local_effect(c.current_module, #[trigger] all[i])
                    == is_local_effect(c.current_module, effect) ==> all[i] == effect
        },
        !c.scope_map.effect_ops.dom().contains(op) ==> bare_op(c, op) == BareOp::Missing,
{
    if let BareOp::Found(effect) = bare_op(c, op) {
        let all = c.scope_map.effect_ops[op];
        let local = |e: Seq<char>| is_local_effect(c.current_module, e);
        let other = |e: Seq<char>| !is_local_effect(c.current_module, e);
        let chosen = crate::effects::chosen_effects(c.current_module, all);
        assert(chosen.contains(chosen[0]));
        filter_contains(all, local, effect);
        filter_contains(all, other, effect);
        assert forall|i: int|
            0 <= i < all.len() && is_local_effect(c.current_module, #[trigger] all[i])
                == is_local_effect(c.current_module, effect) implies all[i] == effect by {
            filter_contains(all, local, all[i]);
            filter_contains(all, other, all[i]);
            assert(all.contains(all[i]));
            assert(chosen.contains(all[i]));
            let k = choose|k: int| 0 <= k < chosen.len() && chosen[k] == all[i];
            assert(k == 0);
        }
        if !is_local_effect(c.current_module, effect) {
            assert forall|i: int| 0 <= i < all.len() implies !is_local_effect(
                c.current_module,
                #[trigger] all[i],
            ) by {
                filter_contains(all, local, all[i]);
                assert(all.contains(all[i]));
                if is_local_effect(c.current_module, all[i]) {
                    let locals = all.filter(local);
                    assert(locals.contains(all[i]));
                    assert(locals.len() > 0);
                    assert(chosen == locals);
                }
            }
        }
    }
}

} // verus!
