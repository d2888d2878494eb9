//! Function types and their effect rows.

use vstd::prelude::*;
use crate::ast::EffectRef;
use crate::checker::{resolved_name, Checker, CheckerModel};
use crate::codegen_info::{
    arrow_count, arrow_effects, collect_effects_from_fun_type, ctor_arity, has_open_effect_row,
    open_along,
};
use crate::diagnostics::{an_error_at, Diag, Diagnostic};
use crate::exports::{first_at, first_at_stays};
use crate::infos::{EffectSigModel, TraitMethodEffectSig};
use crate::row_join::entry_named;
use crate::seqs::push_contains;
use crate::sorting::ordered;
use crate::table::has_key;
use crate::text::{after_last_dot, concat, concat3, concat5, last_segment, text_eq};
use crate::token::Span;
use crate::type_decls::constructors_take_their_fields_in_order;
use crate::type_ops::arrow_ty;
use crate::types::{EffectEntry, EffectRow, Entry, Row, Ty, Type, group_type_models};
use crate::values::{outcome, push_value, Dup, Same};

verus! {

/// A curried function type, the effects of which are on its innermost arrow.
pub open spec fn fun_type(params: Seq<Ty>, result: Ty, row: Row) -> Ty
    decreases params.len(),
{
    if params.len() == 0 {
        result
    } else {
        crate::type_decls::ctor_type(
            params.drop_last(),
            Ty::Fun(Box::new(params.last()), Box::new(result), row),
        )
    }
}

/// A curried function type, the effects of which are on its innermost arrow.
pub fn function_type_with_innermost_effects(
    param_types: &Vec<Type>,
    return_type: Type,
    effect_row: EffectRow,
) -> (r: Type)
    ensures
        r@ == fun_type(param_types.deep_view(), return_type@, effect_row@),
{
    broadcast use group_type_models;

    let ghost all = param_types.deep_view();
    assert(all.len() == param_types.len());
    if param_types.len() == 0 {
        return return_type;
    }
    let last: usize = param_types.len() - 1;
    let mut ty = Type::Fun(Box::new(param_types[last].dup()), Box::new(return_type), effect_row);
    let ghost start = ty@;
    let mut n: usize = last;
    proof {
        assert(all.last() == param_types@[last as int]@);
        assert(all.drop_last().take(n as int) =~= all.drop_last());
    }
    while n > 0
        invariant
            n <= last,
            last == param_types.len() - 1,
            all == param_types.deep_view(),
            crate::type_decls::ctor_type(all.drop_last(), start)
                == crate::type_decls::ctor_type(all.drop_last().take(n as int), ty@),
        decreases n,
    {
        n = n - 1;
        proof {
            assert(all.drop_last().take(n + 1).drop_last() =~= all.drop_last().take(n as int));
            assert(all.drop_last().take(n + 1).last() == param_types@[n as int]@);
        }
        ty = Type::arrow(param_types[n].dup(), ty);
    }
    ty
}

/// The effect row of the innermost arrow of a function type.
pub open spec fn innermost_row(t: Ty) -> Option<Row>
    decreases t,
{
    match t {
        Ty::Fun(_, ret, row) => match innermost_row(*ret) {
            Some(inner) => Some(inner),
            None => Some(row),
        },
        _ => None,
    }
}

/// The effect row of the innermost arrow of a function type.
pub fn innermost_effect_row(ty: &Type) -> (r: Option<EffectRow>)
    ensures
        r.deep_view() == innermost_row(ty@),
    decreases ty,
{
    broadcast use group_type_models;

    match ty {
        Type::Fun(_, ret, row) => match innermost_effect_row(ret) {
            Some(inner) => Some(inner),
            None => Some(row.dup()),
        },
        _ => None,
    }
}

/// What a method permits its impls to do, read off its type.
pub open spec fn effect_sig_of(t: Ty) -> EffectSigModel {
    EffectSigModel {
        effects: ordered(arrow_effects(t).to_set()),
        is_open_row: open_along(t),
        user_arity: arrow_count(t) as usize,
    }
}

/// What a method permits its impls to do, read off its type.
pub fn trait_method_effect_sig(ty: &Type) -> (r: TraitMethodEffectSig)
    requires
        arrow_count(ty@) <= usize::MAX,
    ensures
        r.deep_view() == effect_sig_of(ty@),
{
    TraitMethodEffectSig {
        effects: collect_effects_from_fun_type(ty),
        is_open_row: has_open_effect_row(ty),
        user_arity: ctor_arity(ty),
    }
}

/// The first variable of a name.
pub fn find_var(vars: &Vec<(String, u32)>, name: &str) -> (r: Option<u32>)
    ensures
        r == first_at(vars.deep_view(), name@),
{
    let ghost all = vars.deep_view();
    let mut i: usize = 0;
    assert(all.take(0) =~= Seq::empty());
    while i < vars.len()
        invariant
            i <= vars.len(),
            all == vars.deep_view(),
            first_at(all.take(i as int), name@) is None,
        decreases vars.len() - i,
    {
        proof {
            assert(all.take(i + 1).drop_last() =~= all.take(i as int));
            assert(all.take(i + 1).last() == all[i as int]);
        }
        if text_eq(vars[i].0.as_str(), name) {
            proof {
                crate::exports::first_at_stays(all, name@, i + 1);
            }
            return Some(vars[i].1);
        }
        i = i + 1;
    }
    assert(all.take(i as int) =~= all);
    None
}

/// An effect that a `needs` clause names twice with different arguments.
#[derive(Debug)]
pub struct NeedsConflict {
    pub span: Span,
    /// The effect, without its module.
    pub effect: String,
    /// The effect with its arguments, as it came first and as it came again.
    pub previous: Type,
    pub current: Type,
}

#[verifier::ext_equal]
pub struct ConflictModel {
    pub span: Span,
    pub effect: Seq<char>,
    pub previous: Ty,
    pub current: Ty,
}

impl DeepView for NeedsConflict {
    type V = ConflictModel;

    open spec fn deep_view(&self) -> ConflictModel {
        ConflictModel {
            span: self.span,
            effect: self.effect@,
            previous: self.previous@,
            current: self.current@,
        }
    }
}

pub open spec fn conflicting_needs(e: EffectRef, before: Seq<Ty>, now: Seq<Ty>) -> ConflictModel {
    let name = last_segment(e.name@);
    ConflictModel {
        span: e.span,
        effect: name,
        previous: Ty::Con(name, before),
        current: Ty::Con(name, now),
    }
}

/// The complaint about a conflict. `previous` and `current` are how its two types are
/// shown.
pub open spec fn conflict_error(
    k: ConflictModel,
    previous: Seq<char>,
    current: Seq<char>,
) -> Diag {
    an_error_at(
        k.span,
        "conflicting effect requirements in `needs`: `"@ + previous + "` and `"@ + current
            + "` both refer to `"@ + k.effect + "`, but with different type arguments"@,
    )
}

impl NeedsConflict {
    /// The complaint about a conflict, given how its two types are shown.
    pub fn describe(&self, previous: &str, current: &str) -> (r: Diagnostic)
        ensures
            r@ == conflict_error(self.deep_view(), previous@, current@),
    {
        let start = concat5(
            "conflicting effect requirements in `needs`: `",
            previous,
            "` and `",
            current,
            "` both refer to `",
        );
        let message = concat3(
            start.as_str(),
            self.effect.as_str(),
            "`, but with different type arguments",
        );
        Diagnostic::error_at(self.span, message)
    }
}

/// The state with a complaint about an effect that is not defined.
pub open spec fn with_effect_known(c: CheckerModel, e: EffectRef, name: Seq<char>) -> CheckerModel {
    if has_key(c.effects, name) {
        c
    } else {
        CheckerModel {
            collected_diagnostics: c.collected_diagnostics.push(
                an_error_at(e.span, "undefined effect: "@ + e.name@),
            ),
            ..c
        }
    }
}

/// The entries of the first `n` of some effects, each effect once. An effect that
/// comes twice must have the same arguments.
pub open spec fn entries_of_refs(
    c: CheckerModel,
    refs: Seq<EffectRef>,
    args: Seq<Seq<Ty>>,
    n: nat,
) -> (CheckerModel, Result<Seq<Entry>, ConflictModel>)
    decreases n,
{
    if n == 0 {
        (c, Ok(Seq::empty()))
    } else {
        let before = entries_of_refs(c, refs, args, (n - 1) as nat);
        match before.1 {
            Err(e) => before,
            Ok(entries) => {
                let e = refs[n - 1];
                let name = resolved_name(before.0.resolution.effect_refs, e.id, e.name@);
                let c1 = with_effect_known(before.0, e, name);
                match entry_named(entries, name) {
                    Some(previous) => if previous.args == args[n - 1] {
                        (c1, Ok(entries))
                    } else {
                        (c1, Err(conflicting_needs(e, previous.args, args[n - 1])))
                    },
                    None => (c1, Ok(entries.push(Entry { name, args: args[n - 1] }))),
                }
            },
        }
    }
}

proof fn entries_of_refs_stop(
    c: CheckerModel,
    refs: Seq<EffectRef>,
    args: Seq<Seq<Ty>>,
    n: nat,
    m: nat,
)
    requires
        n <= m,
        entries_of_refs(c, refs, args, n).1 is Err,
    ensures
        entries_of_refs(c, refs, args, m) == entries_of_refs(c, refs, args, n),
    decreases m,
{
    if n < m {
        entries_of_refs_stop(c, refs, args, n, (m - 1) as nat);
    }
}

/// The row variables of a list of names, with the list of known variables and the
/// next variable after that.
pub open spec fn row_tails(names: Seq<(String, Span)>, vars: Seq<(Seq<char>, u32)>, next: int) -> (
    Seq<Ty>,
    Seq<(Seq<char>, u32)>,
    int,
)
    decreases names.len(),
{
    if names.len() == 0 {
        (Seq::empty(), vars, next)
    } else {
        let before = row_tails(names.drop_last(), vars, next);
        let name = names.last().0@;
        match first_at(before.1, name) {
            Some(id) => (before.0.push(Ty::Var(id)), before.1, before.2),
            None => (
                before.0.push(Ty::Var(before.2 as u32)),
                before.1.push((name, before.2 as u32)),
                before.2 + 1,
            ),
        }
    }
}

pub proof fn row_tails_bounds(names: Seq<(String, Span)>, vars: Seq<(Seq<char>, u32)>, next: int)
    ensures
        next <= row_tails(names, vars, next).2 <= next + names.len(),
    decreases names.len(),
{
    if names.len() > 0 {
        row_tails_bounds(names.drop_last(), vars, next);
    }
}

impl Checker {
    /// The row variables of a list of names. Names that are not known get fresh
    /// variables.
    pub fn tails_of_names(
        &mut self,
        names: &Vec<(String, Span)>,
        params_list: &mut Vec<(String, u32)>,
    ) -> (r: Vec<Type>)
        requires
            old(self).next_var + names.len() <= u32::MAX,
        ensures
            ({
                let t = row_tails(names@, old(params_list).deep_view(), old(self).next_var as int);
                &&& r.deep_view() == t.0
                &&& final(params_list).deep_view() == t.1
                &&& 0 <= t.2 <= u32::MAX
                &&& final(self).deep_view() == (CheckerModel {
                    next_var: t.2 as u32,
                    ..old(self).deep_view()
                })
            }),
    {
        let ghost c0 = self.deep_view();
        let ghost vars0 = params_list.deep_view();
        let mut out: Vec<Type> = Vec::new();
        let mut i: usize = 0;
        assert(names@.take(0) =~= Seq::empty());
        assert(out.deep_view() =~= Seq::empty());
        while i < names.len()
            invariant
                i <= names.len(),
                c0.next_var + names.len() <= u32::MAX,
                out.deep_view() == row_tails(
                    names@.take(i as int),
                    vars0,
                    c0.next_var as int,
                ).0,
                params_list.deep_view() == row_tails(
                    names@.take(i as int),
                    vars0,
                    c0.next_var as int,
                ).1,
                self.next_var == row_tails(names@.take(i as int), vars0, c0.next_var as int).2,
                self.deep_view() == (CheckerModel { next_var: self.next_var, ..c0 }),
            decreases names.len() - i,
        {
            proof {
                assert(names@.take(i + 1).drop_last() =~= names@.take(i as int));
                assert(names@.take(i + 1).last() == names@[i as int]);
                row_tails_bounds(names@.take(i as int), vars0, c0.next_var as int);
            }
            let name = &names[i].0;
            let id = match find_var(params_list, name.as_str()) {
                Some(id) => id,
                None => {
                    let id = self.fresh_var();
                    push_value(params_list, (name.clone(), id));
                    id
                },
            };
            push_value(&mut out, Type::Var(id));
            i = i + 1;
        }
        assert(names@.take(i as int) =~= names@);
        out
    }

    fn entries_from_refs(&mut self, effects: &Vec<EffectRef>, args: &Vec<Vec<Type>>) -> (r: Result<
        Vec<EffectEntry>,
        NeedsConflict,
    >)
        requires
            args.len() == effects.len(),
        ensures
            (final(self).deep_view(), outcome(r)) == entries_of_refs(
                old(self).deep_view(),
                effects@,
                args.deep_view(),
                effects@.len(),
            ),
    {
        let ghost c0 = self.deep_view();
        let ghost all = args.deep_view();
        let mut entries: Vec<EffectEntry> = Vec::new();
        let mut i: usize = 0;
        assert(entries.deep_view() =~= Seq::empty());
        while i < effects.len()
            invariant
                i <= effects.len(),
                args.len() == effects.len(),
                c0 == old(self).deep_view(),
                all == args.deep_view(),
                (self.deep_view(), Ok::<Seq<Entry>, ConflictModel>(entries.deep_view()))
                    == entries_of_refs(c0, effects@, all, i as nat),
            decreases effects.len() - i,
        {
            broadcast use group_type_models;

            let e = &effects[i];
            let own = &args[i];
            assert(all[i as int] == own.deep_view());
            let name = self.resolved_effect_name(e.id, e.name.as_str());
            if !self.effects.contains_key(&name) {
                push_value(
                    &mut self.collected_diagnostics,
                    Diagnostic::error_at(e.span, concat("undefined effect: ", e.name.as_str())),
                );
            }
            let entry = EffectEntry { name, args: own.dup() };
            proof {
                crate::types::entry_model_parts(entry);
            }
            match crate::row_join::find_entry(&entries, &entry) {
                Some(previous) => {
                    proof {
                        crate::types::entry_model_parts(*previous);
                    }
                    if !previous.args.same(own) {
                        let bare = after_last_dot(e.name.as_str());
                        let conflict = NeedsConflict {
                            span: e.span,
                            effect: bare.to_owned(),
                            previous: Type::Con(bare.to_owned(), previous.args.dup()),
                            current: Type::Con(bare.to_owned(), own.dup()),
                        };
                        proof {
                            entries_of_refs_stop(
                                c0,
                                effects@,
                                all,
                                (i + 1) as nat,
                                effects@.len(),
                            );
                        }
                        return Err(conflict);
                    }
                },
                None => {
                    push_value(&mut entries, entry);
                },
            }
            i = i + 1;
        }
        Ok(entries)
    }

    /// The effect row of a `needs` clause. `args` are the converted arguments of
    /// its effects. What [`NeedsConflict::describe`] says of a conflict is the error.
    pub fn build_effect_row_from_refs(
        &mut self,
        effects: &Vec<EffectRef>,
        args: &Vec<Vec<Type>>,
        effect_row_var: &Vec<(String, Span)>,
        params_list: &mut Vec<(String, u32)>,
    ) -> (r: Result<EffectRow, NeedsConflict>)
        requires
            args.len() == effects.len(),
            old(self).next_var + effect_row_var.len() <= u32::MAX,
        ensures
            ({
                let built = entries_of_refs(
                    old(self).deep_view(),
                    effects@,
                    args.deep_view(),
                    effects@.len(),
                );
                match built.1 {
                    Err(e) => {
                        &&& r matches Err(k) && k.deep_view() == e
                        &&& final(self).deep_view() == built.0
                        &&& final(params_list).deep_view() == old(params_list).deep_view()
                    },
                    Ok(entries) => {
                        let t = row_tails(
                            effect_row_var@,
                            old(params_list).deep_view(),
                            built.0.next_var as int,
                        );
                        &&& r matches Ok(row) && row@ == (Row { effects: entries, tails: t.0 })
                        &&& final(params_list).deep_view() == t.1
                        &&& final(self).deep_view() == (CheckerModel {
                            next_var: t.2 as u32,
                            ..built.0
                        })
                    },
                }
            }),
    {
        broadcast use group_type_models;

        proof {
            entries_keep_next_var(
                self.deep_view(),
                effects@,
                args.deep_view(),
                effects@.len(),
            );
        }
        match self.entries_from_refs(effects, args) {
            Err(e) => Err(e),
            Ok(entries) => {
                let tails = self.tails_of_names(effect_row_var, params_list);
                let row = EffectRow { effects: entries, tails };
                proof {
                    crate::types::row_model_parts(row);
                }
                Ok(row)
            },
        }
    }
}

proof fn entries_keep_next_var(
    c: CheckerModel,
    refs: Seq<EffectRef>,
    args: Seq<Seq<Ty>>,
    n: nat,
)
    ensures
        entries_of_refs(c, refs, args, n).0.next_var == c.next_var,
    decreases n,
{
    if n > 0 {
        entries_keep_next_var(c, refs, args, (n - 1) as nat);
    }
}

/// The effects of a function type built from parameters are those of its row.
pub proof fn fun_type_has_row(params: Seq<Ty>, result: Ty, row: Row)
    requires
        params.len() > 0,
        innermost_row(result) is None,
    ensures
        innermost_row(fun_type(params, result, row)) == Some(row),
{
    wrapping_keeps_row(
        params.drop_last(),
        Ty::Fun(Box::new(params.last()), Box::new(result), row),
        row,
    );
}

proof fn wrapping_keeps_row(fields: Seq<Ty>, t: Ty, row: Row)
    requires
        innermost_row(t) == Some(row),
    ensures
        innermost_row(crate::type_decls::ctor_type(fields, t)) == Some(row),
    decreases fields.len(),
{
    if fields.len() > 0 {
        wrapping_keeps_row(fields.drop_last(), arrow_ty(fields.last(), t), row);
    }
}

/// A function type takes its parameters in order. All arrows but the innermost are pure,
/// and the innermost has the row.
pub proof fn functions_take_their_parameters_in_order(
    param: Ty,
    params: Seq<Ty>,
    result: Ty,
    row: Row,
)
    ensures
        fun_type(Seq::empty(), result, row) == result,
        fun_type(seq![param], result, row) == Ty::Fun(Box::new(param), Box::new(result), row),
        params.len() > 0 ==> fun_type(seq![param] + params, result, row) == arrow_ty(
            param,
            fun_type(params, result, row),
        ),
{
    assert(seq![param].drop_last() =~= Seq::empty());
    assert(seq![param].last() == param);
    if params.len() > 0 {
        let all = seq![param] + params;
        assert(all.drop_last() =~= seq![param] + params.drop_last());
        assert(all.last() == params.last());
        constructors_take_their_fields_in_order(
            param,
            params.drop_last(),
            Ty::Fun(Box::new(params.last()), Box::new(result), row),
        );
    }
}

proof fn named_entry(entries: Seq<Entry>, name: Seq<char>)
    ensures
        match entry_named(entries, name) {
            Some(e) => e.name == name && entries.contains(e),
            None => forall|i: int|
                0 <= i < entries.len() ==> (#[trigger] entries[i]).name != name,
        },
    decreases entries.len(),
{
    if entries.len() > 0 {
        let init = entries.drop_last();
        named_entry(init, name);
        assert(entries[entries.len() - 1] == entries.last());
        assert(forall|i: int| 0 <= i < init.len() ==> #[trigger] init[i] == entries[i]);
        assert(forall|i: int| 0 <= i < init.len() ==> #[trigger] entries[i] == init[i]);
    }
}

/// The effect that a reference names.
pub open spec fn effect_at(c: CheckerModel, e: EffectRef) -> Seq<char> {
    resolved_name(c.resolution.effect_refs, e.id, e.name@)
}

/// The effects of a list are its entries, each once and with its arguments. Where the
/// entries cannot be told, some effect is listed twice, with different arguments. Each
/// effect that is not defined is complained about.
pub proof fn listed_effects_are_entries(
    c: CheckerModel,
    refs: Seq<EffectRef>,
    args: Seq<Seq<Ty>>,
    n: nat,
)
    requires
        n <= refs.len(),
        n <= args.len(),
    ensures
        ({
            let found = entries_of_refs(c, refs, args, n);
            &&& found.0.resolution == c.resolution
            &&& found.0.effects == c.effects
            &&& found.0.collected_diagnostics.len() >= c.collected_diagnostics.len()
            &&& match found.1 {
                Ok(entries) => {
                    &&& forall|i: int|
                        0 <= i < n ==> entries.contains(
                            Entry { name: effect_at(c, #[trigger] refs[i]), args: args[i] },
                        )
                    &&& forall|j: int|
                        0 <= j < entries.len() ==> exists|i: int|
                            0 <= i < n && #[trigger] entries[j] == (Entry {
                                name: effect_at(c, #[trigger] refs[i]),
                                args: args[i],
                            })
                    &&& forall|j: int, k: int|
                        0 <= j < k < entries.len() ==> (#[trigger] entries[j]).name != (
                        #[trigger] entries[k]).name
                    &&& (exists|i: int|
                        0 <= i < n && !has_key(c.effects, effect_at(c, #[trigger] refs[i])))
                        ==> found.0.collected_diagnostics.len() > c.collected_diagnostics.len()
                    &&& (forall|i: int|
                        0 <= i < n ==> has_key(c.effects, effect_at(c, #[trigger] refs[i])))
                        ==> found.0.collected_diagnostics == c.collected_diagnostics
                },
                Err(_) => exists|i: int, j: int|
                    0 <= i < j < n && effect_at(c, #[trigger] refs[i]) == effect_at(
                        c,
                        #[trigger] refs[j],
                    ) && args[i] != args[j],
            }
        }),
    decreases n,
{
    if n > 0 {
        let m = (n - 1) as nat;
        listed_effects_are_entries(c, refs, args, m);
        let before = entries_of_refs(c, refs, args, m);
        if let Ok(entries) = before.1 {
            let name = effect_at(c, refs[m as int]);
            let own = Entry { name, args: args[m as int] };
            named_entry(entries, name);
            match entry_named(entries, name) {
                Some(previous) => {
                    let j = choose|j: int| 0 <= j < entries.len() && entries[j] == previous;
                    assert(entries[j] == previous);
                    let i = choose|i: int|
                        0 <= i < m && #[trigger] entries[j] == (Entry {
                            name: effect_at(c, #[trigger] refs[i]),
                            args: args[i],
                        });
                    assert(effect_at(c, refs[i]) == effect_at(c, refs[m as int]));
                    if previous.args == args[m as int] {
                        assert(previous == own);
                        assert forall|k: int| 0 <= k < n implies entries.contains(
                            Entry { name: effect_at(c, #[trigger] refs[k]), args: args[k] },
                        ) by {}
                    }
                },
                None => {
                    let after = entries.push(own);
                    assert forall|k: int| 0 <= k < n implies after.contains(
                        Entry { name: effect_at(c, #[trigger] refs[k]), args: args[k] },
                    ) by {
                        push_contains(
                            entries,
                            own,
                            Entry { name: effect_at(c, refs[k]), args: args[k] },
                        );
                    }
                    assert forall|j: int| 0 <= j < after.len() implies exists|i: int|
                        0 <= i < n && #[trigger] after[j] == (Entry {
                            name: effect_at(c, #[trigger] refs[i]),
                            args: args[i],
                        }) by {
                        if j < entries.len() {
                            assert(after[j] == entries[j]);
                            let i = choose|i: int|
                                0 <= i < m && #[trigger] entries[j] == (Entry {
                                    name: effect_at(c, #[trigger] refs[i]),
                                    args: args[i],
                                });
                            assert(after[j] == (Entry {
                                name: effect_at(c, refs[i]),
                                args: args[i],
                            }));
                        } else {
                            assert(after[j] == (Entry {
                                name: effect_at(c, refs[m as int]),
                                args: args[m as int],
                            }));
                        }
                    }
                },
            }
        }
    }
}

/// Each name of a row variable stands for the variable of that name, and for a new one
/// where there is none. Variables that are known stay.
pub proof fn row_names_stand_for_variables(
    names: Seq<(String, Span)>,
    vars: Seq<(Seq<char>, u32)>,
    next: int,
)
    ensures
        ({
            let found = row_tails(names, vars, next);
            &&& found.0.len() == names.len()
            &&& vars.len() <= found.1.len()
            &&& found.1.take(vars.len() as int) == vars
            &&& forall|i: int|
                0 <= i < names.len() ==> (first_at(
                    found.1,
                    (#[trigger] names[i]).0@,
                ) matches Some(id) && found.0[i] == Ty::Var(id))
        }),
    decreases names.len(),
{
    if names.len() > 0 {
        let init = names.drop_last();
        let before = row_tails(init, vars, next);
        let found = row_tails(names, vars, next);
        let name = names.last().0@;
        row_names_stand_for_variables(init, vars, next);
        assert(names[names.len() - 1] == names.last());
        if first_at(before.1, name) is None {
            assert(found.1.drop_last() =~= before.1);
            assert(found.1.take(before.1.len() as int) =~= before.1);
            assert(found.1.take(vars.len() as int) =~= before.1.take(vars.len() as int));
        }
        assert forall|i: int| 0 <= i < names.len() implies (first_at(
            found.1,
            (#[trigger] names[i]).0@,
        ) matches Some(id) && found.0[i] == Ty::Var(id)) by {
            if i < init.len() {
                assert(init[i] == names[i]);
                assert(found.0[i] == before.0[i]);
                if first_at(before.1, name) is None {
                    first_at_stays(found.1, names[i].0@, before.1.len() as int);
                }
            }
        }
    } else {
        assert(vars.take(vars.len() as int) =~= vars);
    }
}

} // verus!
