//! Type patterns: matching the targets of impls against types.

use vstd::prelude::*;
use crate::names::{arity_keyed_target_name, keyed_target};
use crate::table::Table;
use crate::type_vars::{vars_of, vars_of_all};
use crate::types::{Ty, Type, group_type_models};
use crate::values::{push_value, Dup, Same};

verus! {

broadcast use group_type_models;

/// The key under which impls for a type are found: its name, tuples by their
/// arity. Only named types have one.
pub open spec fn target_key(t: Ty) -> Option<Seq<char>> {
    match t {
        Ty::Con(name, args) => Some(keyed_target(name, args.len())),
        _ => None,
    }
}

/// The key under which impls for a type are found.
pub fn target_key_for_type(ty: &Type) -> (r: Option<String>)
    ensures
        r.deep_view() == target_key(ty@),
{
    match ty {
        Type::Con(name, args) => {
            assert(args.deep_view().len() == args.len());
            Some(arity_keyed_target_name(name.as_str(), args.len()))
        },
        _ => None,
    }
}

/// Whether a type is an instance of a pattern, and what the variables of the
/// pattern then stand for. A variable that stands for something already must
/// stand for the same.
pub open spec fn matched(pattern: Ty, actual: Ty, m: Map<u32, Ty>) -> (bool, Map<u32, Ty>)
    decreases pattern,
{
    match pattern {
        Ty::Var(id) => if m.dom().contains(id) {
            (m[id] == actual, m)
        } else {
            (true, m.insert(id, actual))
        },
        Ty::Con(name, args) => match actual {
            Ty::Con(other, actuals) => if name == other && args.len() == actuals.len() {
                matched_all(args, actuals, m)
            } else {
                (false, m)
            },
            _ => (false, m),
        },
        _ => (false, m),
    }
}

/// The same for lists of one length; what follows a mismatch is not looked at.
pub open spec fn matched_all(patterns: Seq<Ty>, actuals: Seq<Ty>, m: Map<u32, Ty>) -> (
    bool,
    Map<u32, Ty>,
)
    decreases patterns,
{
    if patterns.len() == 0 || actuals.len() != patterns.len() {
        (true, m)
    } else {
        let before = matched_all(patterns.drop_last(), actuals.drop_last(), m);
        if before.0 {
            matched(patterns.last(), actuals.last(), before.1)
        } else {
            before
        }
    }
}

proof fn mismatch_stays(patterns: Seq<Ty>, actuals: Seq<Ty>, m: Map<u32, Ty>, n: int)
    requires
        patterns.len() == actuals.len(),
        0 <= n <= patterns.len(),
        !matched_all(patterns.take(n), actuals.take(n), m).0,
    ensures
        matched_all(patterns, actuals, m) == matched_all(patterns.take(n), actuals.take(n), m),
    decreases patterns.len(),
{
    if n < patterns.len() {
        assert(patterns.drop_last().take(n) =~= patterns.take(n));
        assert(actuals.drop_last().take(n) =~= actuals.take(n));
        mismatch_stays(patterns.drop_last(), actuals.drop_last(), m, n);
    } else {
        assert(patterns.take(n) =~= patterns);
        assert(actuals.take(n) =~= actuals);
    }
}

/// Whether a type is an instance of a pattern. `subst` comes to hold what the
/// variables of the pattern stand for.
pub fn match_type_pattern(pattern: &Type, actual: &Type, subst: &mut Table<u32, Type>) -> (r: bool)
    ensures
        (r, final(subst).deep_view()) == matched(pattern@, actual@, old(subst).deep_view()),
    decreases pattern,
{
    match pattern {
        Type::Var(id) => {
            if let Some(existing) = subst.get(id) {
                return existing.same(actual);
            }
            subst.insert(*id, actual.dup());
            true
        },
        Type::Con(name, args) => match actual {
            Type::Con(other, actuals) => {
                assert(args.deep_view().len() == args.len());
                assert(actuals.deep_view().len() == actuals.len());
                if *name == *other && args.len() == actuals.len() {
                    match_all(args, actuals, subst)
                } else {
                    false
                }
            },
            _ => false,
        },
        _ => false,
    }
}

fn match_all(patterns: &Vec<Type>, actuals: &Vec<Type>, subst: &mut Table<u32, Type>) -> (r: bool)
    requires
        patterns.len() == actuals.len(),
    ensures
        (r, final(subst).deep_view()) == matched_all(
            patterns.deep_view(),
            actuals.deep_view(),
            old(subst).deep_view(),
        ),
    decreases patterns,
{
    let ghost ps = patterns.deep_view();
    let ghost aas = actuals.deep_view();
    let ghost m0 = subst.deep_view();
    let mut i: usize = 0;
    assert(ps.take(0) =~= Seq::empty());
    while i < patterns.len()
        invariant
            i <= patterns.len(),
            patterns.len() == actuals.len(),
            ps == patterns.deep_view(),
            aas == actuals.deep_view(),
            m0 == old(subst).deep_view(),
            (true, subst.deep_view()) == matched_all(ps.take(i as int), aas.take(i as int), m0),
        decreases patterns.len() - i,
    {
        proof {
            assert(ps.take(i + 1).drop_last() =~= ps.take(i as int));
            assert(aas.take(i + 1).drop_last() =~= aas.take(i as int));
        }
        if !match_type_pattern(&patterns[i], &actuals[i], subst) {
            proof {
                mismatch_stays(ps, aas, m0, i + 1);
            }
            return false;
        }
        i = i + 1;
    }
    assert(ps.take(i as int) =~= ps);
    assert(aas.take(i as int) =~= aas);
    true
}

/// A type with the variables of a pattern filled in. Effect rows stay as they
/// are.
pub open spec fn filled(t: Ty, m: Map<u32, Ty>) -> Ty
    decreases t,
{
    match t {
        Ty::Var(id) => if m.dom().contains(id) {
            m[id]
        } else {
            t
        },
        Ty::Con(name, args) => Ty::Con(name, filled_all(args, m)),
        Ty::Fun(a, b, row) => Ty::Fun(Box::new(filled(*a, m)), Box::new(filled(*b, m)), row),
        Ty::Record(fields) => Ty::Record(filled_fields(fields, m)),
        _ => t,
    }
}

pub open spec fn filled_all(ts: Seq<Ty>, m: Map<u32, Ty>) -> Seq<Ty>
    decreases ts,
{
    Seq::new(
        ts.len(),
        |i: int|
            if 0 <= i < ts.len() {
                filled(ts[i], m)
            } else {
                Ty::Error
            },
    )
}

pub open spec fn filled_fields(fields: Seq<(Seq<char>, Ty)>, m: Map<u32, Ty>) -> Seq<
    (Seq<char>, Ty),
>
    decreases fields,
{
    Seq::new(
        fields.len(),
        |i: int|
            if 0 <= i < fields.len() {
                (fields[i].0, filled(fields[i].1, m))
            } else {
                (Seq::empty(), Ty::Error)
            },
    )
}

/// A type with the variables of a pattern filled in.
pub fn substitute_pattern_vars(ty: &Type, subst: &Table<u32, Type>) -> (r: Type)
    ensures
        r@ == filled(ty@, subst.deep_view()),
    decreases ty,
{
    match ty {
        Type::Var(id) => match subst.get(id) {
            Some(t) => t.dup(),
            None => Type::Var(*id),
        },
        Type::Con(name, args) => Type::Con(name.clone(), substitute_all(args, subst)),
        Type::Fun(a, b, row) => Type::Fun(
            Box::new(substitute_pattern_vars(a, subst)),
            Box::new(substitute_pattern_vars(b, subst)),
            row.dup(),
        ),
        Type::Record(fields) => Type::Record(substitute_fields(fields, subst)),
        Type::Symbol(name) => Type::Symbol(name.clone()),
        Type::Error => Type::Error,
    }
}

/// Types with the variables of a pattern filled in.
pub fn substitute_all(items: &Vec<Type>, subst: &Table<u32, Type>) -> (r: Vec<Type>)
    ensures
        r.deep_view() == filled_all(items.deep_view(), subst.deep_view()),
    decreases items,
{
    let ghost all = items.deep_view();
    let mut out: Vec<Type> = Vec::new();
    let mut i: usize = 0;
    while i < items.len()
        invariant
            i <= items.len(),
            all == items.deep_view(),
            out.len() == i,
            forall|j: int|
                0 <= j < i ==> #[trigger] out.deep_view()[j] == filled_all(
                    all,
                    subst.deep_view(),
                )[j],
        decreases items.len() - i,
    {
        let x = substitute_pattern_vars(&items[i], subst);
        push_value(&mut out, x);
        i = i + 1;
    }
    assert(out.deep_view() =~= filled_all(all, subst.deep_view()));
    out
}

fn substitute_fields(
    items: &Vec<(String, Type)>,
    subst: &Table<u32, Type>,
) -> (r: Vec<(String, Type)>)
    ensures
        r.deep_view() == filled_fields(items.deep_view(), subst.deep_view()),
    decreases items,
{
    let ghost all = items.deep_view();
    let mut out: Vec<(String, Type)> = Vec::new();
    let mut i: usize = 0;
    while i < items.len()
        invariant
            i <= items.len(),
            all == items.deep_view(),
            out.len() == i,
            forall|j: int|
                0 <= j < i ==> #[trigger] out.deep_view()[j] == filled_fields(
                    all,
                    subst.deep_view(),
                )[j],
        decreases items.len() - i,
    {
        let x = (items[i].0.clone(), substitute_pattern_vars(&items[i].1, subst));
        push_value(&mut out, x);
        i = i + 1;
    }
    assert(out.deep_view() =~= filled_fields(all, subst.deep_view()));
    out
}

/// The position at which a type has a variable as a direct argument: the first.
pub open spec fn var_position(args: Seq<Ty>, id: u32) -> Option<usize>
    decreases args.len(),
{
    if args.len() == 0 {
        None
    } else {
        match var_position(args.drop_last(), id) {
            Some(i) => Some(i),
            None => if args.last() == Ty::Var(id) {
                Some((args.len() - 1) as usize)
            } else {
                None
            },
        }
    }
}

pub open spec fn direct_var_position(target: Ty, id: u32) -> Option<usize> {
    match target {
        Ty::Con(_, args) => var_position(args, id),
        _ => None,
    }
}

proof fn var_position_stays(args: Seq<Ty>, id: u32, n: int)
    requires
        0 <= n <= args.len(),
        var_position(args.take(n), id) is Some,
    ensures
        var_position(args, id) == var_position(args.take(n), id),
    decreases args.len(),
{
    if n < args.len() {
        assert(args.drop_last().take(n) =~= args.take(n));
        var_position_stays(args.drop_last(), id, n);
    } else {
        assert(args.take(n) =~= args);
    }
}

/// The position at which a type has a variable as a direct argument.
pub fn direct_target_var_index(target: &Type, var_id: u32) -> (r: Option<usize>)
    ensures
        r == direct_var_position(target@, var_id),
{
    match target {
        Type::Con(_, args) => {
            let ghost all = args.deep_view();
            let mut i: usize = 0;
            assert(all.take(0) =~= Seq::empty());
            while i < args.len()
                invariant
                    i <= args.len(),
                    all == args.deep_view(),
                    var_position(all.take(i as int), var_id) is None,
                    target@ matches Ty::Con(_, ts) && ts == all,
                decreases args.len() - i,
            {
                proof {
                    assert(all.take(i + 1).drop_last() =~= all.take(i as int));
                    assert(all.take(i + 1).last() == args@[i as int]@);
                }
                if let Type::Var(id) = &args[i] {
                    if *id == var_id {
                        proof {
                            var_position_stays(all, var_id, i + 1);
                        }
                        return Some(i);
                    }
                }
                i = i + 1;
            }
            assert(all.take(i as int) =~= all);
            None
        },
        _ => None,
    }
}

/// Matching adds to what the variables stand for and changes nothing of it.
pub proof fn matching_extends(pattern: Ty, actual: Ty, m: Map<u32, Ty>)
    ensures
        m.submap_of(matched(pattern, actual, m).1),
    decreases pattern,
{
    match pattern {
        Ty::Con(name, args) => match actual {
            Ty::Con(other, actuals) => {
                if name == other && args.len() == actuals.len() {
                    matching_all_extends(args, actuals, m);
                }
            },
            _ => {},
        },
        _ => {},
    }
}

proof fn matching_all_extends(patterns: Seq<Ty>, actuals: Seq<Ty>, m: Map<u32, Ty>)
    ensures
        m.submap_of(matched_all(patterns, actuals, m).1),
    decreases patterns,
{
    if patterns.len() > 0 && actuals.len() == patterns.len() {
        matching_all_extends(patterns.drop_last(), actuals.drop_last(), m);
        let before = matched_all(patterns.drop_last(), actuals.drop_last(), m);
        if before.0 {
            matching_extends(patterns.last(), actuals.last(), before.1);
            vstd::map_lib::lemma_submap_of_trans(
                m,
                before.1,
                matched(patterns.last(), actuals.last(), before.1).1,
            );
        }
    }
}

/// A pattern that matches a type is that type, once its variables are filled in.
/// More that the variables come to stand for later does not change this.
pub proof fn matched_pattern_is_type(pattern: Ty, actual: Ty, m: Map<u32, Ty>, later: Map<u32, Ty>)
    requires
        matched(pattern, actual, m).0,
        matched(pattern, actual, m).1.submap_of(later),
    ensures
        filled(pattern, later) == actual,
    decreases pattern,
{
    match pattern {
        Ty::Var(id) => {
            let after = matched(pattern, actual, m).1;
            assert(after.dom().contains(id) && after[id] == actual);
            assert(later.dom().contains(id) && later[id] == actual);
        },
        Ty::Con(name, args) => {
            match actual {
                Ty::Con(other, actuals) => {
                    matched_patterns_are_types(args, actuals, m, later);
                },
                _ => {},
            }
        },
        _ => {},
    }
}

proof fn matched_patterns_are_types(
    patterns: Seq<Ty>,
    actuals: Seq<Ty>,
    m: Map<u32, Ty>,
    later: Map<u32, Ty>,
)
    requires
        patterns.len() == actuals.len(),
        matched_all(patterns, actuals, m).0,
        matched_all(patterns, actuals, m).1.submap_of(later),
    ensures
        filled_all(patterns, later) == actuals,
    decreases patterns,
{
    if patterns.len() > 0 {
        let init = patterns.drop_last();
        let before = matched_all(init, actuals.drop_last(), m);
        matching_extends(patterns.last(), actuals.last(), before.1);
        assert(before.1.submap_of(later)) by {
            let after = matched(patterns.last(), actuals.last(), before.1).1;
            assert forall|k: u32| #[trigger] before.1.dom().contains(k) implies later.dom().contains(
                k,
            ) && later[k] == before.1[k] by {
                assert(after.dom().contains(k));
            }
        }
        matched_patterns_are_types(init, actuals.drop_last(), m, later);
        matched_pattern_is_type(patterns.last(), actuals.last(), before.1, later);
        assert forall|i: int| 0 <= i < patterns.len() implies filled_all(patterns, later)[i]
            == actuals[i] by {
            if i < init.len() {
                assert(filled_all(init, later)[i] == actuals.drop_last()[i]);
            }
        }
    }
    assert(filled_all(patterns, later) =~= actuals);
}

/// Once a pattern has matched, just its variables have come to stand for something.
pub proof fn matching_fills_the_pattern(pattern: Ty, actual: Ty, m: Map<u32, Ty>)
    requires
        matched(pattern, actual, m).0,
    ensures
        forall|id: u32| #[trigger]
            matched(pattern, actual, m).1.dom().contains(id) <==> m.dom().contains(id) || vars_of(
                pattern,
            ).contains(id),
    decreases pattern,
{
    match pattern {
        Ty::Var(id) => {
            assert(vars_of(pattern)[0] == id);
            assert forall|v: u32| #[trigger]
                matched(pattern, actual, m).1.dom().contains(v) <==> m.dom().contains(v) || vars_of(
                    pattern,
                ).contains(v) by {
                assert(seq![id].contains(v) <==> v == id);
            }
        },
        Ty::Con(name, args) => {
            matching_fills_the_patterns(args, actual->Con_1, m);
            let after = matched_all(args, actual->Con_1, m).1;
            assert(matched(pattern, actual, m).1 == after);
            assert forall|v: u32| #[trigger]
                matched(pattern, actual, m).1.dom().contains(v) <==> m.dom().contains(v) || vars_of(
                    pattern,
                ).contains(v) by {
                assert(after.dom().contains(v) <==> m.dom().contains(v) || vars_of_all(
                    args,
                ).contains(v));
            }
        },
        _ => {},
    }
}

proof fn matching_fills_the_patterns(patterns: Seq<Ty>, actuals: Seq<Ty>, m: Map<u32, Ty>)
    requires
        patterns.len() == actuals.len(),
        matched_all(patterns, actuals, m).0,
    ensures
        forall|id: u32| #[trigger]
            matched_all(patterns, actuals, m).1.dom().contains(id) <==> m.dom().contains(id)
                || vars_of_all(patterns).contains(id),
    decreases patterns,
{
    if patterns.len() > 0 {
        let before = matched_all(patterns.drop_last(), actuals.drop_last(), m);
        matching_fills_the_patterns(patterns.drop_last(), actuals.drop_last(), m);
        matching_fills_the_pattern(patterns.last(), actuals.last(), before.1);
        let a = vars_of_all(patterns.drop_last());
        let b = vars_of(patterns.last());
        assert forall|id: u32| (#[trigger] vars_of_all(patterns).contains(id)) <==> a.contains(id)
            || b.contains(id) by {
            if a.contains(id) {
                let k = choose|k: int| 0 <= k < a.len() && a[k] == id;
                assert((a + b)[k] == id);
            }
            if b.contains(id) {
                let k = choose|k: int| 0 <= k < b.len() && b[k] == id;
                assert((a + b)[a.len() + k] == id);
            }
        }
        assert forall|id: u32| #[trigger]
            matched_all(patterns, actuals, m).1.dom().contains(id) <==> m.dom().contains(id)
                || vars_of_all(patterns).contains(id) by {
            assert(before.1.dom().contains(id) <==> m.dom().contains(id) || a.contains(id));
            let after = matched(patterns.last(), actuals.last(), before.1).1;
            assert(after.dom().contains(id) <==> before.1.dom().contains(id) || b.contains(id));
            assert(matched_all(patterns, actuals, m).1 == after);
            assert(vars_of_all(patterns).contains(id) <==> a.contains(id) || b.contains(id));
        }
    }
}

/// Whether a type is made of variables and named types alone.
pub open spec fn is_named_pattern(t: Ty) -> bool
    decreases t,
{
    match t {
        Ty::Var(_) => true,
        Ty::Con(_, args) => are_named_patterns(args),
        _ => false,
    }
}

pub open spec fn are_named_patterns(ts: Seq<Ty>) -> bool
    decreases ts,
{
    forall|i: int| 0 <= i < ts.len() ==> is_named_pattern(#[trigger] ts[i])
}

/// What variables stand for is what they are filled in with.
spec fn agrees(m: Map<u32, Ty>, filling: Map<u32, Ty>) -> bool {
    forall|id: u32| #[trigger] m.dom().contains(id) ==> m[id] == filled(Ty::Var(id), filling)
}

proof fn instance_is_matched(pattern: Ty, actual: Ty, m: Map<u32, Ty>, filling: Map<u32, Ty>)
    requires
        is_named_pattern(pattern),
        filled(pattern, filling) == actual,
        agrees(m, filling),
    ensures
        matched(pattern, actual, m).0,
        agrees(matched(pattern, actual, m).1, filling),
    decreases pattern,
{
    if let Ty::Con(name, args) = pattern {
        let actuals = actual->Con_1;
        assert(actuals == filled_all(args, filling));
        instances_are_matched(args, actuals, m, filling);
    }
}

proof fn instances_are_matched(
    patterns: Seq<Ty>,
    actuals: Seq<Ty>,
    m: Map<u32, Ty>,
    filling: Map<u32, Ty>,
)
    requires
        are_named_patterns(patterns),
        filled_all(patterns, filling) == actuals,
        agrees(m, filling),
    ensures
        matched_all(patterns, actuals, m).0,
        agrees(matched_all(patterns, actuals, m).1, filling),
    decreases patterns,
{
    if patterns.len() > 0 {
        let init = patterns.drop_last();
        assert(are_named_patterns(init)) by {
            assert forall|i: int| 0 <= i < init.len() implies is_named_pattern(
                #[trigger] init[i],
            ) by {
                assert(init[i] == patterns[i]);
            }
        }
        assert(filled_all(init, filling) =~= actuals.drop_last());
        instances_are_matched(init, actuals.drop_last(), m, filling);
        let before = matched_all(init, actuals.drop_last(), m);
        assert(is_named_pattern(patterns[patterns.len() - 1]));
        assert(actuals.last() == filled(patterns.last(), filling));
        instance_is_matched(patterns.last(), actuals.last(), before.1, filling);
    }
}

/// A refusal is final: where a pattern of variables and named types does not match a
/// type, no filling of its variables makes it that type.
pub proof fn refusal_is_final(pattern: Ty, actual: Ty, filling: Map<u32, Ty>)
    requires
        is_named_pattern(pattern),
        !matched(pattern, actual, Map::empty()).0,
    ensures
        filled(pattern, filling) != actual,
{
    if filled(pattern, filling) == actual {
        instance_is_matched(pattern, actual, Map::empty(), filling);
    }
}

} // verus!
