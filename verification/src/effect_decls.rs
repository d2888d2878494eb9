//! Registering effects.

use vstd::prelude::*;
use crate::ast::{EffectOp, EffectRef, Kind, TypeParam};
use crate::bounds::args_fit;
use crate::checker::{local_name, resolved_name, Checker, CheckerModel};
use crate::diagnostics::{Diag, Diagnostic};
use crate::fun_types::row_tails;
use crate::import_scope::op_names;
use crate::infos::{EffectDefInfo, EffectModel, EffectOpSig, OpModel};
use crate::scope::{with_members, ScopeModel};
use crate::signatures::{complaints_fit, declared_constraints};
use crate::table::{at_key, distinct_keys, has_key, put, put_then_get, Table};
use crate::text::concat3;
use crate::token::Span;
use crate::traits::key_is_put;
use crate::types::{EffectEntry, EffectRow, Entry, Row, Ty, Type, group_type_models};
use crate::values::{outcome, push_value, Dup};

verus! {

/// The state with a fresh variable for a parameter.
pub open spec fn with_kinded_var(c: CheckerModel, p: TypeParam) -> CheckerModel {
    CheckerModel {
        next_var: (c.next_var + 1) as u32,
        var_kinds: put(c.var_kinds, c.next_var, p.kind),
        ..c
    }
}

pub open spec fn with_kinded_vars(acc: CheckerModel, items: Seq<TypeParam>) -> CheckerModel
    decreases items.len(),
{
    if items.len() == 0 {
        acc
    } else {
        with_kinded_var(with_kinded_vars(acc, items.drop_last()), items.last())
    }
}

pub open spec fn kinds_of(params: Seq<TypeParam>) -> Seq<Kind> {
    params.map_values(|p: TypeParam| p.kind)
}

proof fn kinded_vars_count(c: CheckerModel, params: Seq<TypeParam>)
    requires
        c.next_var + params.len() <= u32::MAX,
    ensures
        with_kinded_vars(c, params).next_var == c.next_var + params.len(),
        with_kinded_vars(c, params) == (CheckerModel {
            next_var: (c.next_var + params.len()) as u32,
            var_kinds: with_kinded_vars(c, params).var_kinds,
            ..c
        }),
    decreases params.len(),
{
    if params.len() > 0 {
        kinded_vars_count(c, params.drop_last());
    }
}

/// The state with an effect that has no operations yet.
pub open spec fn with_effect_stub(
    c: CheckerModel,
    name: Seq<char>,
    params: Seq<TypeParam>,
) -> CheckerModel {
    let c1 = with_kinded_vars(c, params);
    let key = local_name(c.current_module, name);
    let arity = params.len() as usize;
    CheckerModel {
        effects: put(
            c.effects,
            key,
            EffectModel {
                type_params: Seq::new(params.len(), |i: int| (c.next_var + i) as u32),
                ops: Seq::empty(),
                op_spans: Seq::empty(),
                source_module: c.current_module,
            },
        ),
        type_param_kinds: put(c.type_param_kinds, key, kinds_of(params)),
        type_arity: if c.current_module is Some {
            put(put(c.type_arity, name, arity), key, arity)
        } else {
            put(c.type_arity, name, arity)
        },
        ..c1
    }
}

impl Checker {
    /// Registers the name and the parameters of an effect. All effects of a module
    /// get theirs before any has operations, so that the operations of one may
    /// speak of another.
    pub fn register_effect_stub(&mut self, name: &str, effect_type_params: &Vec<TypeParam>)
        requires
            old(self).next_var + effect_type_params.len() <= u32::MAX,
        ensures
            final(self).deep_view() == with_effect_stub(
                old(self).deep_view(),
                name@,
                effect_type_params@,
            ),
    {
        let ghost c0 = self.deep_view();
        let params = effect_type_params;
        let ghost all = params@;
        let mut ids: Vec<u32> = Vec::new();
        let mut kinds: Vec<Kind> = Vec::new();
        let mut i: usize = 0;
        assert(all.take(0) =~= Seq::empty());
        while i < params.len()
            invariant
                i <= params.len(),
                all == params@,
                c0.next_var + params.len() <= u32::MAX,
                self.deep_view() == with_kinded_vars(c0, all.take(i as int)),
                ids.len() == i,
                forall|j: int| 0 <= j < i ==> #[trigger] ids@[j] == c0.next_var + j,
                kinds.len() == i,
                forall|j: int| 0 <= j < i ==> #[trigger] kinds.deep_view()[j] == all[j].kind,
            decreases params.len() - i,
        {
            proof {
                assert(all.take(i + 1).drop_last() =~= all.take(i as int));
                assert(all.take(i + 1).last() == all[i as int]);
                kinded_vars_count(c0, all.take(i as int));
            }
            let id = self.fresh_var_of_kind(params[i].kind);
            ids.push(id);
            push_value(&mut kinds, params[i].kind);
            i = i + 1;
        }
        proof {
            assert(all.take(i as int) =~= all);
            kinded_vars_count(c0, all);
            assert(ids.deep_view() =~= Seq::new(all.len(), |i: int| (c0.next_var + i) as u32));
            assert(kinds.deep_view() =~= kinds_of(all));
        }
        let key = self.canonical_name(name);
        let ops: Vec<EffectOpSig> = Vec::new();
        assert(ops.deep_view() =~= Seq::empty());
        let info = EffectDefInfo {
            type_params: ids,
            ops,
            op_spans: Table::new(),
            source_module: self.current_module.dup(),
        };
        self.effects.insert(key.clone(), info);
        self.type_param_kinds.insert(key.clone(), kinds);
        self.type_arity.insert(name.to_owned(), params.len());
        if self.current_module.is_some() {
            self.type_arity.insert(key, params.len());
        }
    }
}

/// An operation of an effect, its types converted.
pub struct OpParts {
    pub params: Vec<(String, Type)>,
    pub return_type: Type,
    /// The arguments of the effects that it needs.
    pub needs_args: Vec<Vec<Type>>,
    /// The variables that its signature speaks of.
    pub vars: Vec<(String, u32)>,
    /// The variables that first occur in each bound of its where clause.
    pub introduced: Vec<Vec<(String, u32)>>,
    /// The further arguments of the traits of its where clause.
    pub bound_args: Vec<Vec<Vec<Type>>>,
    /// What is wrong with the kinds of the variables of its where clause.
    pub complaints: Vec<Vec<Option<Diagnostic>>>,
}

#[verifier::ext_equal]
pub struct OpPartsModel {
    pub params: Seq<(Seq<char>, Ty)>,
    pub return_type: Ty,
    pub needs_args: Seq<Seq<Ty>>,
    pub vars: Seq<(Seq<char>, u32)>,
    pub introduced: Seq<Seq<(Seq<char>, u32)>>,
    pub bound_args: Seq<Seq<Seq<Ty>>>,
    pub complaints: Seq<Seq<Option<Diag>>>,
}

impl DeepView for OpParts {
    type V = OpPartsModel;

    open spec fn deep_view(&self) -> OpPartsModel {
        OpPartsModel {
            params: self.params.deep_view(),
            return_type: self.return_type.deep_view(),
            needs_args: self.needs_args.deep_view(),
            vars: self.vars.deep_view(),
            introduced: self.introduced.deep_view(),
            bound_args: self.bound_args.deep_view(),
            complaints: self.complaints.deep_view(),
        }
    }
}

impl Dup for OpParts {
    fn dup(&self) -> (r: Self) {
        OpParts {
            params: self.params.dup(),
            return_type: self.return_type.dup(),
            needs_args: self.needs_args.dup(),
            vars: self.vars.dup(),
            introduced: self.introduced.dup(),
            bound_args: self.bound_args.dup(),
            complaints: self.complaints.dup(),
        }
    }
}

/// The effects that an operation needs.
pub open spec fn op_needs(c: CheckerModel, refs: Seq<EffectRef>, args: Seq<Seq<Ty>>) -> Seq<Entry> {
    Seq::new(
        refs.len(),
        |i: int|
            Entry {
                name: resolved_name(c.resolution.effect_refs, refs[i].id, refs[i].name@),
                args: args[i],
            },
    )
}

pub open spec fn op_where(name: Seq<char>) -> Seq<char> {
    " in effect operation '"@ + name + "'"@
}

/// An operation, or the complaint about its where clause.
pub open spec fn op_registered(
    c: CheckerModel,
    effect: Seq<char>,
    op: EffectOp,
    p: OpPartsModel,
) -> (CheckerModel, Result<OpModel, Diag>) {
    let tails = row_tails(op.effect_row_var@, p.vars, c.next_var as int);
    let c1 = CheckerModel { next_var: tails.2 as u32, ..c };
    let declared = declared_constraints(
        c1,
        true,
        op.span,
        op_where(op.name@),
        tails.1,
        p.introduced,
        op.where_clause@,
        p.bound_args,
        p.complaints,
        op.where_clause@.len(),
    );
    match declared.1 {
        Err(e) => (declared.0, Err(e)),
        Ok(constraints) => (
            declared.0,
            Ok(
                OpModel {
                    name: op.name@,
                    effect_name: effect,
                    params: p.params,
                    return_type: p.return_type,
                    needs: Row { effects: op_needs(c, op.effects@, p.needs_args), tails: tails.0 },
                    constraints,
                },
            ),
        ),
    }
}

/// Whether there are parts for each operation.
pub open spec fn parts_fit(op: EffectOp, p: OpPartsModel) -> bool {
    &&& p.needs_args.len() == op.effects@.len()
    &&& p.introduced.len() == op.where_clause@.len()
    &&& args_fit(op.where_clause@, p.bound_args)
    &&& complaints_fit(op.where_clause@, p.complaints)
}

/// How many names stand for rows in some operations.
pub open spec fn row_var_count(ops: Seq<EffectOp>) -> nat
    decreases ops.len(),
{
    if ops.len() == 0 {
        0
    } else {
        row_var_count(ops.drop_last()) + ops.last().effect_row_var@.len()
    }
}

/// The first `n` operations of an effect with their places, or the first complaint.
pub open spec fn ops_registered(
    c: CheckerModel,
    effect: Seq<char>,
    ops: Seq<EffectOp>,
    parts: Seq<OpPartsModel>,
    n: nat,
) -> (CheckerModel, Result<(Seq<OpModel>, Seq<(Seq<char>, Span)>), Diag>)
    decreases n,
{
    if n == 0 {
        (c, Ok((Seq::empty(), Seq::empty())))
    } else {
        let before = ops_registered(c, effect, ops, parts, (n - 1) as nat);
        match before.1 {
            Err(e) => before,
            Ok(acc) => {
                let last = op_registered(before.0, effect, ops[n - 1], parts[n - 1]);
                match last.1 {
                    Err(e) => (last.0, Err(e)),
                    Ok(op) => (
                        last.0,
                        Ok((acc.0.push(op), put(acc.1, ops[n - 1].name@, ops[n - 1].span))),
                    ),
                }
            },
        }
    }
}

proof fn ops_registered_stop(
    c: CheckerModel,
    effect: Seq<char>,
    ops: Seq<EffectOp>,
    parts: Seq<OpPartsModel>,
    n: nat,
    m: nat,
)
    requires
        n <= m,
        ops_registered(c, effect, ops, parts, n).1 is Err,
    ensures
        ops_registered(c, effect, ops, parts, m) == ops_registered(c, effect, ops, parts, n),
    decreases m,
{
    if n < m {
        ops_registered_stop(c, effect, ops, parts, n, (m - 1) as nat);
    }
}

/// The state with the operations of an effect, or the first complaint about them.
pub open spec fn effect_ops_registered(
    c: CheckerModel,
    name: Seq<char>,
    ops: Seq<EffectOp>,
    parts: Seq<OpPartsModel>,
) -> (CheckerModel, Result<(), Diag>) {
    let key = local_name(c.current_module, name);
    let done = ops_registered(c, name, ops, parts, ops.len());
    match done.1 {
        Err(e) => (done.0, Err(e)),
        Ok(sigs) => {
            let c1 = done.0;
            (
                CheckerModel {
                    scope_map: ScopeModel {
                        effect_ops: with_members(
                            key,
                            c1.scope_map.effect_ops,
                            sigs.0.map_values(|op: OpModel| crate::import_scope::op_name_of(op)),
                        ),
                        ..c1.scope_map
                    },
                    effects: match at_key(c1.effects, key) {
                        Some(info) => put(
                            c1.effects,
                            key,
                            EffectModel { ops: sigs.0, op_spans: sigs.1, ..info },
                        ),
                        None => c1.effects,
                    },
                    ..c1
                },
                Ok(()),
            )
        },
    }
}

proof fn op_bounds(c: CheckerModel, effect: Seq<char>, op: EffectOp, p: OpPartsModel)
    requires
        c.next_var + op.effect_row_var@.len() <= u32::MAX,
    ensures
        op_registered(c, effect, op, p).0.next_var <= c.next_var + op.effect_row_var@.len(),
        op_registered(c, effect, op, p).0.current_module == c.current_module,
        op_registered(c, effect, op, p).0.resolution == c.resolution,
{
    let tails = row_tails(op.effect_row_var@, p.vars, c.next_var as int);
    crate::fun_types::row_tails_bounds(op.effect_row_var@, p.vars, c.next_var as int);
    crate::signatures::declaring_keeps(
        CheckerModel { next_var: tails.2 as u32, ..c },
        true,
        op.span,
        op_where(op.name@),
        tails.1,
        p.introduced,
        op.where_clause@,
        p.bound_args,
        p.complaints,
        op.where_clause@.len(),
    );
}

proof fn ops_bounds(
    c: CheckerModel,
    effect: Seq<char>,
    ops: Seq<EffectOp>,
    parts: Seq<OpPartsModel>,
    n: nat,
)
    requires
        n <= ops.len(),
        c.next_var + row_var_count(ops) <= u32::MAX,
    ensures
        ops_registered(c, effect, ops, parts, n).0.next_var <= c.next_var + row_var_count(
            ops.take(n as int),
        ),
        row_var_count(ops.take(n as int)) <= row_var_count(ops),
        ops_registered(c, effect, ops, parts, n).0.current_module == c.current_module,
    decreases n,
{
    fewer_row_vars(ops, n as int);
    if n == 0 {
        assert(ops.take(0) =~= Seq::empty());
    } else {
        ops_bounds(c, effect, ops, parts, (n - 1) as nat);
        assert(ops.take(n as int).drop_last() =~= ops.take(n - 1));
        assert(ops.take(n as int).last() == ops[n - 1]);
        let before = ops_registered(c, effect, ops, parts, (n - 1) as nat).0;
        op_bounds(before, effect, ops[n - 1], parts[n - 1]);
    }
}

proof fn fewer_row_vars(ops: Seq<EffectOp>, n: int)
    requires
        0 <= n <= ops.len(),
    ensures
        row_var_count(ops.take(n)) <= row_var_count(ops),
    decreases ops.len(),
{
    if n < ops.len() {
        assert(ops.drop_last().take(n) =~= ops.take(n));
        fewer_row_vars(ops.drop_last(), n);
    } else {
        assert(ops.take(n) =~= ops);
    }
}

impl Checker {
    fn needed_entries(&self, refs: &Vec<EffectRef>, args: &Vec<Vec<Type>>) -> (r: Vec<EffectEntry>)
        requires
            args.len() == refs.len(),
        ensures
            r.deep_view() == op_needs(self.deep_view(), refs@, args.deep_view()),
    {
        let mut out: Vec<EffectEntry> = Vec::new();
        let mut i: usize = 0;
        while i < refs.len()
            invariant
                i <= refs.len(),
                args.len() == refs.len(),
                out.len() == i,
                forall|j: int|
                    0 <= j < i ==> #[trigger] out.deep_view()[j] == op_needs(
                        self.deep_view(),
                        refs@,
                        args.deep_view(),
                    )[j],
            decreases refs.len() - i,
        {
            let entry = EffectEntry {
                name: self.resolved_effect_name(refs[i].id, refs[i].name.as_str()),
                args: args[i].dup(),
            };
            proof {
                crate::types::entry_model_parts(entry);
                assert(args.deep_view()[i as int] == args@[i as int].deep_view());
            }
            push_value(&mut out, entry);
            i = i + 1;
        }
        assert(out.deep_view() =~= op_needs(self.deep_view(), refs@, args.deep_view()));
        out
    }

    fn register_op(&mut self, effect: &str, op: &EffectOp, parts: &OpParts) -> (r: Result<
        EffectOpSig,
        Diagnostic,
    >)
        requires
            parts_fit(*op, parts.deep_view()),
            old(self).next_var + op.effect_row_var.len() <= u32::MAX,
        ensures
            (final(self).deep_view(), outcome(r)) == op_registered(
                old(self).deep_view(),
                effect@,
                *op,
                parts.deep_view(),
            ),
    {
        broadcast use group_type_models;

        assert(parts.needs_args.deep_view().len() == parts.needs_args.len());
        let entries = self.needed_entries(&op.effects, &parts.needs_args);
        let mut vars = parts.vars.dup();
        let tails = self.tails_of_names(&op.effect_row_var, &mut vars);
        let whose = concat3(" in effect operation '", op.name.as_str(), "'");
        assert(parts.introduced.deep_view().len() == parts.introduced.len());
        match self.declare_constraints(
            true,
            op.span,
            whose.as_str(),
            &vars,
            &parts.introduced,
            &op.where_clause,
            &parts.bound_args,
            &parts.complaints,
        ) {
            Err(e) => Err(e),
            Ok(constraints) => {
                let needs = EffectRow { effects: entries, tails };
                proof {
                    crate::types::row_model_parts(needs);
                }
                Ok(
                    EffectOpSig {
                        name: op.name.clone(),
                        effect_name: effect.to_owned(),
                        params: parts.params.dup(),
                        return_type: parts.return_type.dup(),
                        needs,
                        constraints,
                    },
                )
            },
        }
    }

    fn register_ops(
        &mut self,
        effect: &str,
        ops: &Vec<EffectOp>,
        parts: &Vec<OpParts>,
        spans: &mut Table<String, Span>,
    ) -> (r: Result<Vec<EffectOpSig>, Diagnostic>)
        requires
            old(spans).order() == Seq::<(Seq<char>, Span)>::empty(),
            parts.len() == ops.len(),
            forall|i: int|
                0 <= i < ops.len() ==> parts_fit(ops@[i], #[trigger] parts.deep_view()[i]),
            old(self).next_var + row_var_count(ops@) <= u32::MAX,
        ensures
            final(self).deep_view() == ops_registered(
                old(self).deep_view(),
                effect@,
                ops@,
                parts.deep_view(),
                ops@.len(),
            ).0,
            ops_registered(
                old(self).deep_view(),
                effect@,
                ops@,
                parts.deep_view(),
                ops@.len(),
            ).1 == match r {
                Ok(sigs) => Ok((sigs.deep_view(), final(spans).order())),
                Err(e) => Err(e@),
            },
    {
        let ghost c0 = self.deep_view();
        let ghost ps = parts.deep_view();
        let mut out: Vec<EffectOpSig> = Vec::new();
        let mut i: usize = 0;
        assert(out.deep_view() =~= Seq::empty());
        while i < ops.len()
            invariant
                i <= ops.len(),
                parts.len() == ops.len(),
                ps == parts.deep_view(),
                c0 == old(self).deep_view(),
                forall|j: int| 0 <= j < ops.len() ==> parts_fit(ops@[j], #[trigger] ps[j]),
                c0.next_var + row_var_count(ops@) <= u32::MAX,
                ops_registered(c0, effect@, ops@, ps, i as nat) == (
                    self.deep_view(),
                    Ok::<(Seq<OpModel>, Seq<(Seq<char>, Span)>), Diag>(
                        (out.deep_view(), spans.order()),
                    ),
                ),
            decreases ops.len() - i,
        {
            proof {
                ops_bounds(c0, effect@, ops@, ps, i as nat);
                fewer_row_vars(ops@, i + 1);
                assert(ops@.take(i + 1).drop_last() =~= ops@.take(i as int));
                assert(ops@.take(i + 1).last() == ops@[i as int]);
                assert(ps[i as int] == parts@[i as int].deep_view());
            }
            let op = &ops[i];
            match self.register_op(effect, op, &parts[i]) {
                Err(e) => {
                    proof {
                        ops_registered_stop(
                            c0,
                            effect@,
                            ops@,
                            ps,
                            (i + 1) as nat,
                            ops@.len(),
                        );
                    }
                    return Err(e);
                },
                Ok(sig) => {
                    push_value(&mut out, sig);
                    spans.insert(op.name.clone(), op.span);
                },
            }
            i = i + 1;
        }
        Ok(out)
    }

    /// Registers the operations of an effect whose name is registered already.
    /// `parts` holds the converted types of each operation.
    pub fn register_effect_ops(
        &mut self,
        name: &str,
        operations: &Vec<EffectOp>,
        parts: &Vec<OpParts>,
    ) -> (r: Result<(), Diagnostic>)
        requires
            parts.len() == operations.len(),
            forall|i: int|
                0 <= i < operations.len() ==> parts_fit(
                    operations@[i],
                    #[trigger] parts.deep_view()[i],
                ),
            old(self).next_var + row_var_count(operations@) <= u32::MAX,
        ensures
            (final(self).deep_view(), outcome(r)) == effect_ops_registered(
                old(self).deep_view(),
                name@,
                operations@,
                parts.deep_view(),
            ),
    {
        let key = self.canonical_name(name);
        let mut spans: Table<String, Span> = Table::new();
        match self.register_ops(name, operations, parts, &mut spans) {
            Err(e) => Err(e),
            Ok(ops) => {
                let names = op_names(&ops);
                self.scope_map.register_effect_ops(key.as_str(), &names);
                let info = match self.effects.get(&key) {
                    Some(info) => Some(info.dup()),
                    None => None,
                };
                if let Some(info) = info {
                    let info = EffectDefInfo { ops, op_spans: spans, ..info };
                    self.effects.insert(key, info);
                }
                Ok(())
            },
        }
    }
}

/// Whether a registered operation is as it is declared: its name and effect, the types
/// of its parameters and its result, and the effects that it needs.
pub open spec fn is_declared_op(
    c: CheckerModel,
    effect: Seq<char>,
    op: EffectOp,
    p: OpPartsModel,
    sig: OpModel,
) -> bool {
    &&& sig.name == op.name@
    &&& sig.effect_name == effect
    &&& sig.params == p.params
    &&& sig.return_type == p.return_type
    &&& sig.needs.effects.len() == op.effects@.len()
    &&& forall|i: int|
        0 <= i < op.effects@.len() ==> (#[trigger] sig.needs.effects[i]).name == resolved_name(
            c.resolution.effect_refs,
            op.effects@[i].id,
            op.effects@[i].name@,
        ) && sig.needs.effects[i].args == p.needs_args[i]
    &&& sig.needs.tails.len() == op.effect_row_var@.len()
}

proof fn tails_are_counted(names: Seq<(String, Span)>, vars: Seq<(Seq<char>, u32)>, next: int)
    ensures
        row_tails(names, vars, next).0.len() == names.len(),
    decreases names.len(),
{
    if names.len() > 0 {
        tails_are_counted(names.drop_last(), vars, next);
    }
}

proof fn op_keeps(c: CheckerModel, effect: Seq<char>, op: EffectOp, p: OpPartsModel)
    ensures
        op_registered(c, effect, op, p).0.resolution == c.resolution,
        op_registered(c, effect, op, p).0.effects == c.effects,
        op_registered(c, effect, op, p).1 matches Ok(sig) ==> is_declared_op(
            c,
            effect,
            op,
            p,
            sig,
        ),
{
    let tails = row_tails(op.effect_row_var@, p.vars, c.next_var as int);
    tails_are_counted(op.effect_row_var@, p.vars, c.next_var as int);
    crate::signatures::declaring_keeps(
        CheckerModel { next_var: tails.2 as u32, ..c },
        true,
        op.span,
        op_where(op.name@),
        tails.1,
        p.introduced,
        op.where_clause@,
        p.bound_args,
        p.complaints,
        op.where_clause@.len(),
    );
}

proof fn ops_are_declared(
    c: CheckerModel,
    effect: Seq<char>,
    ops: Seq<EffectOp>,
    parts: Seq<OpPartsModel>,
    n: nat,
)
    requires
        n <= ops.len(),
    ensures
        ({
            let done = ops_registered(c, effect, ops, parts, n);
            &&& done.0.resolution == c.resolution
            &&& done.0.effects == c.effects
            &&& done.1 matches Ok(sigs) ==> {
                &&& sigs.0.len() == n
                &&& distinct_keys(sigs.1)
                &&& forall|i: int|
                    0 <= i < n ==> is_declared_op(
                        c,
                        effect,
                        #[trigger] ops[i],
                        parts[i],
                        sigs.0[i],
                    )
                &&& forall|i: int|
                    0 <= i < n ==> has_key(sigs.1, (#[trigger] ops[i]).name@)
            }
        }),
    decreases n,
{
    if n > 0 {
        let n1 = (n - 1) as nat;
        ops_are_declared(c, effect, ops, parts, n1);
        let before = ops_registered(c, effect, ops, parts, n1);
        op_keeps(before.0, effect, ops[n - 1], parts[n - 1]);
        if let Ok(acc) = before.1 {
            let op = ops[n - 1];
            put_then_get(acc.1, op.name@, op.span, op.name@);
            assert forall|i: int| 0 <= i < n implies has_key(
                put(acc.1, op.name@, op.span),
                (#[trigger] ops[i]).name@,
            ) by {
                key_is_put(acc.1, op.name@, op.span, ops[i].name@);
                if i < n1 {
                    assert(has_key(acc.1, ops[i].name@));
                }
            }
        }
    }
}

/// Registering the operations of an effect registers all of them, in order, each as it
/// is declared, with its place; the parameters of the effect stay as they are.
pub proof fn effects_have_their_operations(
    c: CheckerModel,
    name: Seq<char>,
    ops: Seq<EffectOp>,
    parts: Seq<OpPartsModel>,
)
    requires
        distinct_keys(c.effects),
        parts.len() == ops.len(),
        has_key(c.effects, local_name(c.current_module, name)),
        effect_ops_registered(c, name, ops, parts).1 is Ok,
    ensures
        ({
            let key = local_name(c.current_module, name);
            let found = at_key(effect_ops_registered(c, name, ops, parts).0.effects, key);
            let info = found->0;
            &&& found is Some
            &&& info.type_params == at_key(c.effects, key)->0.type_params
            &&& info.source_module == at_key(c.effects, key)->0.source_module
            &&& info.ops.len() == ops.len()
            &&& forall|i: int|
                0 <= i < ops.len() ==> is_declared_op(
                    c,
                    name,
                    #[trigger] ops[i],
                    parts[i],
                    info.ops[i],
                )
            &&& forall|i: int|
                0 <= i < ops.len() ==> has_key(info.op_spans, (#[trigger] ops[i]).name@)
        }),
{
    let key = local_name(c.current_module, name);
    ops_are_declared(c, name, ops, parts, ops.len());
    let sigs = ops_registered(c, name, ops, parts, ops.len()).1->Ok_0;
    let info = at_key(c.effects, key)->0;
    put_then_get(c.effects, key, EffectModel { ops: sigs.0, op_spans: sigs.1, ..info }, key);
}

/// An effect is registered with as many parameters as it declares, each a variable of
/// its own.
pub proof fn effects_are_registered_with_their_parameters(
    c: CheckerModel,
    name: Seq<char>,
    params: Seq<TypeParam>,
    i: int,
    j: int,
)
    requires
        distinct_keys(c.effects),
        distinct_keys(c.type_param_kinds),
        c.next_var + params.len() <= u32::MAX,
        0 <= i < params.len(),
        0 <= j < params.len(),
    ensures
        ({
            let after = with_effect_stub(c, name, params);
            let key = local_name(c.current_module, name);
            let info = at_key(after.effects, key)->0;
            let kinds = at_key(after.type_param_kinds, key)->0;
            &&& has_key(after.effects, key)
            &&& info.type_params.len() == params.len()
            &&& c.next_var <= info.type_params[i] < after.next_var
            &&& i != j ==> info.type_params[i] != info.type_params[j]
            &&& info.ops.len() == 0
            &&& info.source_module == c.current_module
            &&& kinds.len() == params.len()
            &&& kinds[i] == params[i].kind
        }),
{
    let key = local_name(c.current_module, name);
    kinded_vars_count(c, params);
    let info = EffectModel {
        type_params: Seq::new(params.len(), |i: int| (c.next_var + i) as u32),
        ops: Seq::empty(),
        op_spans: Seq::empty(),
        source_module: c.current_module,
    };
    put_then_get(c.effects, key, info, key);
    key_is_put(c.effects, key, info, key);
    put_then_get(c.type_param_kinds, key, kinds_of(params), key);
}

} // verus!
