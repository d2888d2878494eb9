//! The variables of types: which there are, and types with them replaced.

use vstd::prelude::*;
use crate::seqs::{add_new, add_new_in_turn, add_new_one};
use crate::table::Table;
use crate::types::{EffectEntry, EffectRow, Entry, Row, Ty, Type, group_type_models};
use crate::values::{contains_value, push_value, Dup};

verus! {

broadcast use group_type_models;

/// The variables of a type, as often as they occur, in order.
pub open spec fn vars_of(t: Ty) -> Seq<u32>
    decreases t,
{
    match t {
        Ty::Var(id) => seq![id],
        Ty::Fun(a, b, row) => vars_of(*a) + vars_of(*b) + entries_vars(row.effects) + vars_of_all(
            row.tails,
        ),
        Ty::Con(_, args) => vars_of_all(args),
        Ty::Record(fields) => fields_vars(fields),
        Ty::Symbol(_) => Seq::empty(),
        Ty::Error => Seq::empty(),
    }
}

pub open spec fn vars_of_all(ts: Seq<Ty>) -> Seq<u32>
    decreases ts,
{
    if ts.len() == 0 {
        Seq::empty()
    } else {
        vars_of_all(ts.drop_last()) + vars_of(ts.last())
    }
}

pub open spec fn fields_vars(fields: Seq<(Seq<char>, Ty)>) -> Seq<u32>
    decreases fields,
{
    if fields.len() == 0 {
        Seq::empty()
    } else {
        fields_vars(fields.drop_last()) + vars_of(fields.last().1)
    }
}

pub open spec fn entries_vars(effects: Seq<Entry>) -> Seq<u32>
    decreases effects,
{
    if effects.len() == 0 {
        Seq::empty()
    } else {
        entries_vars(effects.drop_last()) + vars_of_all(effects.last().args)
    }
}

pub open spec fn row_vars(row: Row) -> Seq<u32> {
    entries_vars(row.effects) + vars_of_all(row.tails)
}

/// `out`, then each of some variables that is not bound and has not come before.
pub open spec fn with_free(bound: Seq<u32>, out: Seq<u32>, vars: Seq<u32>) -> Seq<u32> {
    add_new(out, vars.filter(|v: u32| !bound.contains(v)))
}

/// The variables of a type, each once.
pub open spec fn free_vars(t: Ty) -> Seq<u32> {
    with_free(Seq::empty(), Seq::empty(), vars_of(t))
}

proof fn with_free_in_turn(bound: Seq<u32>, out: Seq<u32>, a: Seq<u32>, b: Seq<u32>)
    ensures
        with_free(bound, with_free(bound, out, a), b) == with_free(bound, out, a + b),
{
    let keep = |v: u32| !bound.contains(v);
    Seq::filter_distributes_over_add(a, b, keep);
    add_new_in_turn(out, a.filter(keep), b.filter(keep));
}

proof fn with_free_none(bound: Seq<u32>, out: Seq<u32>)
    ensures
        with_free(bound, out, Seq::empty()) == out,
{
    reveal(Seq::filter);
}

proof fn with_free_one(bound: Seq<u32>, out: Seq<u32>, id: u32)
    ensures
        with_free(bound, out, seq![id]) == (if bound.contains(id) || out.contains(id) {
            out
        } else {
            out.push(id)
        }),
{
    let keep = |v: u32| !bound.contains(v);
    reveal(Seq::filter);
    assert(seq![id].drop_last() =~= Seq::empty());
    assert(seq![id].last() == id);
    assert(Seq::<u32>::empty().filter(keep) =~= Seq::empty());
    if bound.contains(id) {
        assert(seq![id].filter(keep) =~= Seq::empty());
    } else {
        assert(seq![id].filter(keep) =~= seq![id]);
        add_new_one(out, id);
    }
}

/// Adds the variables of a type that are not bound and not there yet.
pub fn free_vars_in_type(ty: &Type, bound: &Vec<u32>, out: &mut Vec<u32>)
    ensures
        final(out)@ == with_free(bound@, old(out)@, vars_of(ty@)),
    decreases ty,
{
    let ghost out0 = out@;
    match ty {
        Type::Var(id) => {
            proof {
                with_free_one(bound@, out0, *id);
                assert(bound.deep_view() =~= bound@);
                assert(out.deep_view() =~= out@);
            }
            if !contains_value(bound, id) && !contains_value(out, id) {
                out.push(*id);
            }
        },
        Type::Fun(a, b, row) => {
            free_vars_in_type(a, bound, out);
            free_vars_in_type(b, bound, out);
            free_vars_in_entries(&row.effects, bound, out);
            free_vars_in_types(&row.tails, bound, out);
            proof {
                let e = entries_vars(row.effects.deep_view());
                let t = vars_of_all(row.tails.deep_view());
                with_free_in_turn(bound@, out0, vars_of(a@), vars_of(b@));
                with_free_in_turn(bound@, out0, vars_of(a@) + vars_of(b@), e);
                with_free_in_turn(bound@, out0, vars_of(a@) + vars_of(b@) + e, t);
            }
        },
        Type::Con(_, args) => {
            free_vars_in_types(args, bound, out);
        },
        Type::Record(fields) => {
            free_vars_in_fields(fields, bound, out);
        },
        Type::Symbol(_) => {
            proof {
                with_free_none(bound@, out0);
            }
        },
        Type::Error => {
            proof {
                with_free_none(bound@, out0);
            }
        },
    }
}

pub fn free_vars_in_types(items: &Vec<Type>, bound: &Vec<u32>, out: &mut Vec<u32>)
    ensures
        final(out)@ == with_free(bound@, old(out)@, vars_of_all(items.deep_view())),
    decreases items,
{
    let ghost out0 = out@;
    let ghost all = items.deep_view();
    let mut i: usize = 0;
    proof {
        assert(all.take(0) =~= Seq::empty());
        with_free_none(bound@, out0);
    }
    while i < items.len()
        invariant
            i <= items.len(),
            all == items.deep_view(),
            out@ == with_free(bound@, out0, vars_of_all(all.take(i as int))),
        decreases items.len() - i,
    {
        proof {
            assert(all.take(i + 1).drop_last() =~= all.take(i as int));
            assert(all.take(i + 1).last() == all[i as int]);
            with_free_in_turn(
                bound@,
                out0,
                vars_of_all(all.take(i as int)),
                vars_of(all[i as int]),
            );
        }
        free_vars_in_type(&items[i], bound, out);
        i = i + 1;
    }
    assert(all.take(i as int) =~= all);
}

fn free_vars_in_fields(items: &Vec<(String, Type)>, bound: &Vec<u32>, out: &mut Vec<u32>)
    ensures
        final(out)@ == with_free(bound@, old(out)@, fields_vars(items.deep_view())),
    decreases items,
{
    let ghost out0 = out@;
    let ghost all = items.deep_view();
    let mut i: usize = 0;
    proof {
        assert(all.take(0) =~= Seq::empty());
        with_free_none(bound@, out0);
    }
    while i < items.len()
        invariant
            i <= items.len(),
            all == items.deep_view(),
            out@ == with_free(bound@, out0, fields_vars(all.take(i as int))),
        decreases items.len() - i,
    {
        proof {
            assert(all.take(i + 1).drop_last() =~= all.take(i as int));
            assert(all.take(i + 1).last() == all[i as int]);
            with_free_in_turn(
                bound@,
                out0,
                fields_vars(all.take(i as int)),
                vars_of(all[i as int].1),
            );
        }
        free_vars_in_type(&items[i].1, bound, out);
        i = i + 1;
    }
    assert(all.take(i as int) =~= all);
}

fn free_vars_in_entries(items: &Vec<EffectEntry>, bound: &Vec<u32>, out: &mut Vec<u32>)
    ensures
        final(out)@ == with_free(bound@, old(out)@, entries_vars(items.deep_view())),
    decreases items,
{
    let ghost out0 = out@;
    let ghost all = items.deep_view();
    let mut i: usize = 0;
    proof {
        assert(all.take(0) =~= Seq::empty());
        with_free_none(bound@, out0);
    }
    while i < items.len()
        invariant
            i <= items.len(),
            all == items.deep_view(),
            out@ == with_free(bound@, out0, entries_vars(all.take(i as int))),
        decreases items.len() - i,
    {
        proof {
            assert(all.take(i + 1).drop_last() =~= all.take(i as int));
            assert(all.take(i + 1).last() == all[i as int]);
            with_free_in_turn(
                bound@,
                out0,
                entries_vars(all.take(i as int)),
                vars_of_all(all[i as int].args),
            );
        }
        free_vars_in_types(&items[i].args, bound, out);
        i = i + 1;
    }
    assert(all.take(i as int) =~= all);
}

/// Adds the variables of a type that are not there yet.
pub fn collect_free_vars(ty: &Type, out: &mut Vec<u32>)
    ensures
        final(out)@ == with_free(Seq::empty(), old(out)@, vars_of(ty@)),
{
    let bound: Vec<u32> = Vec::new();
    free_vars_in_type(ty, &bound, out);
}

/// Adds the variables of an effect row that are not there yet.
pub fn collect_free_row_vars(row: &EffectRow, out: &mut Vec<u32>)
    ensures
        final(out)@ == with_free(Seq::empty(), old(out)@, row_vars(row@)),
{
    let ghost out0 = out@;
    let bound: Vec<u32> = Vec::new();
    free_vars_in_entries(&row.effects, &bound, out);
    free_vars_in_types(&row.tails, &bound, out);
    proof {
        with_free_in_turn(
            Seq::empty(),
            out0,
            entries_vars(row.effects.deep_view()),
            vars_of_all(row.tails.deep_view()),
        );
    }
}

/// A type with its variables replaced as `m` says.
pub open spec fn replaced(t: Ty, m: Map<u32, Ty>) -> Ty
    decreases t,
{
    match t {
        Ty::Var(id) => if m.dom().contains(id) {
            m[id]
        } else {
            t
        },
        Ty::Fun(a, b, row) => Ty::Fun(
            Box::new(replaced(*a, m)),
            Box::new(replaced(*b, m)),
            replaced_row(row, m),
        ),
        Ty::Con(name, args) => Ty::Con(name, replaced_all(args, m)),
        Ty::Record(fields) => Ty::Record(replaced_fields(fields, m)),
        _ => t,
    }
}

pub open spec fn replaced_all(ts: Seq<Ty>, m: Map<u32, Ty>) -> Seq<Ty>
    decreases ts,
{
    Seq::new(
        ts.len(),
        |i: int|
            if 0 <= i < ts.len() {
                replaced(ts[i], m)
            } else {
                Ty::Error
            },
    )
}

pub open spec fn replaced_fields(fields: Seq<(Seq<char>, Ty)>, m: Map<u32, Ty>) -> Seq<
    (Seq<char>, Ty),
>
    decreases fields,
{
    Seq::new(
        fields.len(),
        |i: int|
            if 0 <= i < fields.len() {
                (fields[i].0, replaced(fields[i].1, m))
            } else {
                (Seq::empty(), Ty::Error)
            },
    )
}

pub open spec fn replaced_entries(effects: Seq<Entry>, m: Map<u32, Ty>) -> Seq<Entry>
    decreases effects,
{
    Seq::new(
        effects.len(),
        |i: int|
            if 0 <= i < effects.len() {
                Entry { name: effects[i].name, args: replaced_all(effects[i].args, m) }
            } else {
                Entry { name: Seq::empty(), args: Seq::empty() }
            },
    )
}

/// An effect row with its variables replaced as `m` says.
pub open spec fn replaced_row(row: Row, m: Map<u32, Ty>) -> Row
    decreases row,
{
    Row { effects: replaced_entries(row.effects, m), tails: replaced_all(row.tails, m) }
}

/// A type with its variables replaced.
pub fn replace_vars(t: &Type, m: &Table<u32, Type>) -> (r: Type)
    ensures
        r@ == replaced(t@, m.deep_view()),
    decreases t,
{
    match t {
        Type::Var(id) => match m.get(id) {
            Some(u) => u.dup(),
            None => Type::Var(*id),
        },
        Type::Fun(a, b, row) => Type::Fun(
            Box::new(replace_vars(a, m)),
            Box::new(replace_vars(b, m)),
            replace_vars_in_effect_row(row, m),
        ),
        Type::Con(name, args) => Type::Con(name.clone(), replace_vars_in_all(args, m)),
        Type::Record(fields) => Type::Record(replace_vars_in_fields(fields, m)),
        Type::Symbol(name) => Type::Symbol(name.clone()),
        Type::Error => Type::Error,
    }
}

/// Types with their variables replaced.
pub fn replace_vars_in_all(items: &Vec<Type>, m: &Table<u32, Type>) -> (r: Vec<Type>)
    ensures
        r.deep_view() == replaced_all(items.deep_view(), m.deep_view()),
    decreases items,
{
    let ghost all = items.deep_view();
    let mut out: Vec<Type> = Vec::new();
    let mut i: usize = 0;
    while i < items.len()
        invariant
            i <= items.len(),
            all == items.deep_view(),
            out.len() == i,
            forall|j: int|
                0 <= j < i ==> #[trigger] out.deep_view()[j] == replaced_all(all, m.deep_view())[j],
        decreases items.len() - i,
    {
        let x = replace_vars(&items[i], m);
        push_value(&mut out, x);
        i = i + 1;
    }
    assert(out.deep_view() =~= replaced_all(all, m.deep_view()));
    out
}

pub fn replace_vars_in_fields(
    items: &Vec<(String, Type)>,
    m: &Table<u32, Type>,
) -> (r: Vec<(String, Type)>)
    ensures
        r.deep_view() == replaced_fields(items.deep_view(), m.deep_view()),
    decreases items,
{
    let ghost all = items.deep_view();
    let mut out: Vec<(String, Type)> = Vec::new();
    let mut i: usize = 0;
    while i < items.len()
        invariant
            i <= items.len(),
            all == items.deep_view(),
            out.len() == i,
            forall|j: int|
                0 <= j < i ==> #[trigger] out.deep_view()[j] == replaced_fields(
                    all,
                    m.deep_view(),
                )[j],
        decreases items.len() - i,
    {
        let x = (items[i].0.clone(), replace_vars(&items[i].1, m));
        push_value(&mut out, x);
        i = i + 1;
    }
    assert(out.deep_view() =~= replaced_fields(all, m.deep_view()));
    out
}

fn replace_vars_in_entries(items: &Vec<EffectEntry>, m: &Table<u32, Type>) -> (r: Vec<EffectEntry>)
    ensures
        r.deep_view() == replaced_entries(items.deep_view(), m.deep_view()),
    decreases items,
{
    let ghost all = items.deep_view();
    let mut out: Vec<EffectEntry> = Vec::new();
    let mut i: usize = 0;
    while i < items.len()
        invariant
            i <= items.len(),
            all == items.deep_view(),
            out.len() == i,
            forall|j: int|
                0 <= j < i ==> #[trigger] out.deep_view()[j] == replaced_entries(
                    all,
                    m.deep_view(),
                )[j],
        decreases items.len() - i,
    {
        let x = EffectEntry {
            name: items[i].name.clone(),
            args: replace_vars_in_all(&items[i].args, m),
        };
        push_value(&mut out, x);
        i = i + 1;
    }
    assert(out.deep_view() =~= replaced_entries(all, m.deep_view()));
    out
}

/// An effect row with its variables replaced.
pub fn replace_vars_in_effect_row(row: &EffectRow, m: &Table<u32, Type>) -> (r: EffectRow)
    ensures
        r@ == replaced_row(row@, m.deep_view()),
    decreases row,
{
    EffectRow {
        effects: replace_vars_in_entries(&row.effects, m),
        tails: replace_vars_in_all(&row.tails, m),
    }
}

/// Replacing variables that do not occur changes nothing.
pub proof fn replacing_absent_vars(t: Ty, m: Map<u32, Ty>)
    requires
        forall|id: u32| #[trigger] m.dom().contains(id) ==> !vars_of(t).contains(id),
    ensures
        replaced(t, m) == t,
    decreases t,
{
    match t {
        Ty::Var(id) => {
            assert(vars_of(t)[0] == id);
        },
        Ty::Fun(a, b, row) => {
            let e = entries_vars(row.effects);
            let ts = vars_of_all(row.tails);
            absent_left(m, vars_of(*a), vars_of(*b) + e + ts, vars_of(t));
            absent_left(m, vars_of(*a) + vars_of(*b), e + ts, vars_of(t));
            absent_right(m, vars_of(*a), vars_of(*b), vars_of(*a) + vars_of(*b));
            absent_left(m, vars_of(*a) + vars_of(*b) + e, ts, vars_of(t));
            absent_right(m, vars_of(*a) + vars_of(*b), e, vars_of(*a) + vars_of(*b) + e);
            absent_right(m, vars_of(*a) + vars_of(*b) + e, ts, vars_of(t));
            replacing_absent_vars(*a, m);
            replacing_absent_vars(*b, m);
            replacing_absent_in_entries(row.effects, m);
            replacing_absent_in_all(row.tails, m);
            assert(replaced_row(row, m) =~= row);
        },
        Ty::Con(_, args) => {
            replacing_absent_in_all(args, m);
        },
        Ty::Record(fields) => {
            replacing_absent_in_fields(fields, m);
        },
        _ => {},
    }
}

spec fn none_in(m: Map<u32, Ty>, vars: Seq<u32>) -> bool {
    forall|id: u32| #[trigger] m.dom().contains(id) ==> !vars.contains(id)
}

proof fn absent_left(m: Map<u32, Ty>, a: Seq<u32>, b: Seq<u32>, ab: Seq<u32>)
    requires
        none_in(m, ab),
        ab =~= a + b,
    ensures
        none_in(m, a),
{
    assert forall|id: u32| #[trigger] m.dom().contains(id) implies !a.contains(id) by {
        if a.contains(id) {
            let i = choose|i: int| 0 <= i < a.len() && a[i] == id;
            assert(ab[i] == id);
        }
    }
}

proof fn absent_right(m: Map<u32, Ty>, a: Seq<u32>, b: Seq<u32>, ab: Seq<u32>)
    requires
        none_in(m, ab),
        ab =~= a + b,
    ensures
        none_in(m, b),
{
    assert forall|id: u32| #[trigger] m.dom().contains(id) implies !b.contains(id) by {
        if b.contains(id) {
            let i = choose|i: int| 0 <= i < b.len() && b[i] == id;
            assert(ab[a.len() + i] == id);
        }
    }
}

proof fn replacing_absent_in_all(items: Seq<Ty>, m: Map<u32, Ty>)
    requires
        none_in(m, vars_of_all(items)),
    ensures
        replaced_all(items, m) == items,
    decreases items,
{
    if items.len() > 0 {
        let init = items.drop_last();
        absent_left(m, vars_of_all(init), vars_of(items.last()), vars_of_all(items));
        absent_right(m, vars_of_all(init), vars_of(items.last()), vars_of_all(items));
        replacing_absent_in_all(init, m);
        replacing_absent_vars(items.last(), m);
        assert forall|i: int| 0 <= i < items.len() implies replaced_all(
            items,
            m,
        )[i] == items[i] by {
            if i < init.len() {
                assert(replaced_all(init, m)[i] == init[i]);
            }
        }
    }
    assert(replaced_all(items, m) =~= items);
}

proof fn replacing_absent_in_fields(items: Seq<(Seq<char>, Ty)>, m: Map<u32, Ty>)
    requires
        none_in(m, fields_vars(items)),
    ensures
        replaced_fields(items, m) == items,
    decreases items,
{
    if items.len() > 0 {
        let init = items.drop_last();
        absent_left(m, fields_vars(init), vars_of(items.last().1), fields_vars(items));
        absent_right(m, fields_vars(init), vars_of(items.last().1), fields_vars(items));
        replacing_absent_in_fields(init, m);
        replacing_absent_vars(items.last().1, m);
        assert forall|i: int| 0 <= i < items.len() implies replaced_fields(
            items,
            m,
        )[i] == items[i] by {
            if i < init.len() {
                assert(replaced_fields(init, m)[i] == init[i]);
            }
        }
    }
    assert(replaced_fields(items, m) =~= items);
}

proof fn replacing_absent_in_entries(items: Seq<Entry>, m: Map<u32, Ty>)
    requires
        none_in(m, entries_vars(items)),
    ensures
        replaced_entries(items, m) == items,
    decreases items,
{
    if items.len() > 0 {
        let init = items.drop_last();
        absent_left(m, entries_vars(init), vars_of_all(items.last().args), entries_vars(items));
        absent_right(m, entries_vars(init), vars_of_all(items.last().args), entries_vars(items));
        replacing_absent_in_entries(init, m);
        replacing_absent_in_all(items.last().args, m);
        assert forall|i: int| 0 <= i < items.len() implies replaced_entries(
            items,
            m,
        )[i] == items[i] by {
            if i < init.len() {
                assert(replaced_entries(init, m)[i] == init[i]);
            }
        }
    }
    assert(replaced_entries(items, m) =~= items);
}

/// Replacing variables goes through a type: a variable becomes what it is replaced by,
/// and each part of a type is replaced in its place. Nothing else of it changes.
pub proof fn replacing_goes_through_types(t: Ty, m: Map<u32, Ty>)
    ensures
        match t {
            Ty::Var(id) => {
                &&& m.dom().contains(id) ==> replaced(t, m) == m[id]
                &&& !m.dom().contains(id) ==> replaced(t, m) == t
            },
            Ty::Fun(a, b, row) => {
                &&& replaced(t, m) matches Ty::Fun(a1, b1, row1)
                &&& *a1 == replaced(*a, m)
                &&& *b1 == replaced(*b, m)
                &&& row1 == replaced_row(row, m)
            },
            Ty::Con(name, args) => {
                &&& replaced(t, m) matches Ty::Con(name1, args1)
                &&& name1 == name
                &&& args1.len() == args.len()
                &&& forall|i: int|
                    0 <= i < args.len() ==> #[trigger] args1[i] == replaced(args[i], m)
            },
            Ty::Record(fields) => {
                &&& replaced(t, m) matches Ty::Record(fields1)
                &&& fields1.len() == fields.len()
                &&& forall|i: int|
                    0 <= i < fields.len() ==> (#[trigger] fields1[i]).0 == fields[i].0
                        && fields1[i].1 == replaced(fields[i].1, m)
            },
            _ => replaced(t, m) == t,
        },
{
    match t {
        Ty::Con(_, args) => {
            assert(replaced(t, m)->Con_1 == replaced_all(args, m));
        },
        Ty::Record(fields) => {
            assert(replaced(t, m)->Record_0 == replaced_fields(fields, m));
        },
        _ => {},
    }
}

/// Replacing variables goes through a row: its effects keep their names, and each
/// argument and each tail is replaced in its place.
pub proof fn replacing_goes_through_rows(row: Row, m: Map<u32, Ty>)
    ensures
        replaced_row(row, m).effects.len() == row.effects.len(),
        replaced_row(row, m).tails.len() == row.tails.len(),
        forall|i: int|
            0 <= i < row.effects.len() ==> (#[trigger] replaced_row(row, m).effects[i]).name
                == row.effects[i].name && replaced_row(row, m).effects[i].args.len()
                == row.effects[i].args.len(),
        forall|i: int, k: int|
            0 <= i < row.effects.len() && 0 <= k < row.effects[i].args.len()
                ==> #[trigger] replaced_row(row, m).effects[i].args[k] == replaced(
                row.effects[i].args[k],
                m,
            ),
        forall|i: int|
            0 <= i < row.tails.len() ==> #[trigger] replaced_row(row, m).tails[i] == replaced(
                row.tails[i],
                m,
            ),
{
}

/// Whether one of some variables leads to another one once they are replaced.
pub open spec fn leads_to(vars: Seq<u32>, m: Map<u32, Ty>, id: u32) -> bool {
    exists|i: int|
        0 <= i < vars.len() && if m.dom().contains(#[trigger] vars[i]) {
            vars_of(m[vars[i]]).contains(id)
        } else {
            vars[i] == id
        }
}

proof fn leading_in_turn(a: Seq<u32>, b: Seq<u32>, m: Map<u32, Ty>, id: u32)
    ensures
        leads_to(a + b, m, id) <==> leads_to(a, m, id) || leads_to(b, m, id),
{
    let ab = a + b;
    assert(forall|i: int| 0 <= i < a.len() ==> ab[i] == #[trigger] a[i]);
    assert(forall|i: int| 0 <= i < b.len() ==> ab[a.len() + i] == #[trigger] b[i]);
    if leads_to(ab, m, id) {
        let i = choose|i: int|
            0 <= i < ab.len() && if m.dom().contains(#[trigger] ab[i]) {
                vars_of(m[ab[i]]).contains(id)
            } else {
                ab[i] == id
            };
        if i < a.len() {
            assert(ab[i] == a[i]);
        } else {
            assert(ab[i] == b[i - a.len()]);
        }
    }
}

proof fn either_contains(a: Seq<u32>, b: Seq<u32>, id: u32)
    ensures
        (a + b).contains(id) <==> a.contains(id) || b.contains(id),
{
    let ab = a + b;
    if a.contains(id) {
        let i = choose|i: int| 0 <= i < a.len() && a[i] == id;
        assert(ab[i] == id);
    }
    if b.contains(id) {
        let i = choose|i: int| 0 <= i < b.len() && b[i] == id;
        assert(ab[a.len() + i] == id);
    }
    if ab.contains(id) {
        let i = choose|i: int| 0 <= i < ab.len() && ab[i] == id;
        if i < a.len() {
            assert(a[i] == id);
        } else {
            assert(b[i - a.len()] == id);
        }
    }
}

/// The variables of a type whose variables were replaced are those of what they were
/// replaced by, and those that were not replaced.
pub proof fn replaced_vars_are_gone(t: Ty, m: Map<u32, Ty>, id: u32)
    ensures
        vars_of(replaced(t, m)).contains(id) <==> leads_to(vars_of(t), m, id),
    decreases t,
{
    match t {
        Ty::Var(v) => {
            assert(vars_of(t)[0] == v);
            assert(seq![v].contains(id) <==> v == id) by {
                assert(seq![v][0] == v);
            }
        },
        Ty::Fun(a, b, row) => {
            replaced_vars_are_gone(*a, m, id);
            replaced_vars_are_gone(*b, m, id);
            entries_vars_are_gone(row.effects, m, id);
            all_vars_are_gone(row.tails, m, id);
            let after = replaced_row(row, m);
            let a1 = vars_of(replaced(*a, m));
            let b1 = vars_of(replaced(*b, m));
            either_contains(a1, b1, id);
            either_contains(a1 + b1, entries_vars(after.effects), id);
            either_contains(
                a1 + b1 + entries_vars(after.effects),
                vars_of_all(after.tails),
                id,
            );
            let a0 = vars_of(*a);
            let b0 = vars_of(*b);
            leading_in_turn(a0, b0, m, id);
            leading_in_turn(a0 + b0, entries_vars(row.effects), m, id);
            leading_in_turn(a0 + b0 + entries_vars(row.effects), vars_of_all(row.tails), m, id);
        },
        Ty::Con(_, args) => {
            all_vars_are_gone(args, m, id);
        },
        Ty::Record(fields) => {
            fields_vars_are_gone(fields, m, id);
        },
        _ => {},
    }
}

proof fn all_vars_are_gone(ts: Seq<Ty>, m: Map<u32, Ty>, id: u32)
    ensures
        vars_of_all(replaced_all(ts, m)).contains(id) <==> leads_to(vars_of_all(ts), m, id),
    decreases ts,
{
    if ts.len() > 0 {
        let init = ts.drop_last();
        all_vars_are_gone(init, m, id);
        replaced_vars_are_gone(ts.last(), m, id);
        assert(replaced_all(ts, m).drop_last() =~= replaced_all(init, m));
        assert(replaced_all(ts, m).last() == replaced(ts.last(), m));
        either_contains(vars_of_all(replaced_all(init, m)), vars_of(replaced(ts.last(), m)), id);
        leading_in_turn(vars_of_all(init), vars_of(ts.last()), m, id);
    }
}

proof fn fields_vars_are_gone(fields: Seq<(Seq<char>, Ty)>, m: Map<u32, Ty>, id: u32)
    ensures
        fields_vars(replaced_fields(fields, m)).contains(id) <==> leads_to(
            fields_vars(fields),
            m,
            id,
        ),
    decreases fields,
{
    if fields.len() > 0 {
        let init = fields.drop_last();
        fields_vars_are_gone(init, m, id);
        replaced_vars_are_gone(fields.last().1, m, id);
        assert(replaced_fields(fields, m).drop_last() =~= replaced_fields(init, m));
        assert(replaced_fields(fields, m).last().1 == replaced(fields.last().1, m));
        either_contains(
            fields_vars(replaced_fields(init, m)),
            vars_of(replaced(fields.last().1, m)),
            id,
        );
        leading_in_turn(fields_vars(init), vars_of(fields.last().1), m, id);
    }
}

proof fn entries_vars_are_gone(effects: Seq<Entry>, m: Map<u32, Ty>, id: u32)
    ensures
        entries_vars(replaced_entries(effects, m)).contains(id) <==> leads_to(
            entries_vars(effects),
            m,
            id,
        ),
    decreases effects,
{
    if effects.len() > 0 {
        let init = effects.drop_last();
        entries_vars_are_gone(init, m, id);
        all_vars_are_gone(effects.last().args, m, id);
        assert(replaced_entries(effects, m).drop_last() =~= replaced_entries(init, m));
        assert(replaced_entries(effects, m).last().args == replaced_all(effects.last().args, m));
        either_contains(
            entries_vars(replaced_entries(init, m)),
            vars_of_all(replaced_all(effects.last().args, m)),
            id,
        );
        leading_in_turn(entries_vars(init), vars_of_all(effects.last().args), m, id);
    }
}

/// The variables of a type are those of its parts.
pub proof fn vars_are_those_of_the_parts(t: Ty, id: u32)
    ensures
        match t {
            Ty::Var(v) => vars_of(t).contains(id) <==> v == id,
            Ty::Fun(a, b, row) => vars_of(t).contains(id) <==> {
                ||| vars_of(*a).contains(id)
                ||| vars_of(*b).contains(id)
                ||| exists|i: int, k: int|
                    0 <= i < row.effects.len() && 0 <= k < row.effects[i].args.len() && vars_of(
                        #[trigger] row.effects[i].args[k],
                    ).contains(id)
                ||| exists|i: int|
                    0 <= i < row.tails.len() && vars_of(#[trigger] row.tails[i]).contains(id)
            },
            Ty::Con(_, args) => vars_of(t).contains(id) <==> exists|i: int|
                0 <= i < args.len() && vars_of(#[trigger] args[i]).contains(id),
            Ty::Record(fields) => vars_of(t).contains(id) <==> exists|i: int|
                0 <= i < fields.len() && vars_of((#[trigger] fields[i]).1).contains(id),
            _ => !vars_of(t).contains(id),
        },
{
    match t {
        Ty::Var(v) => {
            assert(seq![v][0] == v);
        },
        Ty::Fun(a, b, row) => {
            let a0 = vars_of(*a);
            let b0 = vars_of(*b);
            let e = entries_vars(row.effects);
            either_contains(a0, b0, id);
            either_contains(a0 + b0, e, id);
            either_contains(a0 + b0 + e, vars_of_all(row.tails), id);
            vars_among_entries(row.effects, id);
            vars_among_all(row.tails, id);
        },
        Ty::Con(_, args) => {
            vars_among_all(args, id);
        },
        Ty::Record(fields) => {
            vars_among_fields(fields, id);
        },
        _ => {},
    }
}

proof fn vars_among_all(ts: Seq<Ty>, id: u32)
    ensures
        vars_of_all(ts).contains(id) <==> exists|i: int|
            0 <= i < ts.len() && vars_of(#[trigger] ts[i]).contains(id),
    decreases ts.len(),
{
    if ts.len() > 0 {
        let init = ts.drop_last();
        vars_among_all(init, id);
        either_contains(vars_of_all(init), vars_of(ts.last()), id);
        assert(forall|i: int| 0 <= i < init.len() ==> #[trigger] ts[i] == init[i]);
        assert(forall|i: int| 0 <= i < init.len() ==> ts[i] == #[trigger] init[i]);
        assert(ts[ts.len() - 1] == ts.last());
    }
}

proof fn vars_among_fields(fields: Seq<(Seq<char>, Ty)>, id: u32)
    ensures
        fields_vars(fields).contains(id) <==> exists|i: int|
            0 <= i < fields.len() && vars_of((#[trigger] fields[i]).1).contains(id),
    decreases fields.len(),
{
    if fields.len() > 0 {
        let init = fields.drop_last();
        vars_among_fields(init, id);
        either_contains(fields_vars(init), vars_of(fields.last().1), id);
        assert(forall|i: int| 0 <= i < init.len() ==> #[trigger] fields[i] == init[i]);
        assert(forall|i: int| 0 <= i < init.len() ==> fields[i] == #[trigger] init[i]);
        assert(fields[fields.len() - 1] == fields.last());
    }
}

proof fn vars_among_entries(effects: Seq<Entry>, id: u32)
    ensures
        entries_vars(effects).contains(id) <==> exists|i: int, k: int|
            0 <= i < effects.len() && 0 <= k < effects[i].args.len() && vars_of(
                #[trigger] effects[i].args[k],
            ).contains(id),
    decreases effects.len(),
{
    if effects.len() > 0 {
        let init = effects.drop_last();
        let last = effects.last();
        vars_among_entries(init, id);
        vars_among_all(last.args, id);
        either_contains(entries_vars(init), vars_of_all(last.args), id);
        assert(effects[effects.len() - 1] == last);
        if entries_vars(init).contains(id) {
            let (i, k) = choose|i: int, k: int|
                0 <= i < init.len() && 0 <= k < init[i].args.len() && vars_of(
                    #[trigger] init[i].args[k],
                ).contains(id);
            assert(vars_of(effects[i].args[k]).contains(id));
        }
        if vars_of_all(last.args).contains(id) {
            let k = choose|k: int|
                0 <= k < last.args.len() && vars_of(#[trigger] last.args[k]).contains(id);
            assert(vars_of(effects[effects.len() - 1].args[k]).contains(id));
        }
        if exists|i: int, k: int|
            0 <= i < effects.len() && 0 <= k < effects[i].args.len() && vars_of(
                #[trigger] effects[i].args[k],
            ).contains(id) {
            let (i, k) = choose|i: int, k: int|
                0 <= i < effects.len() && 0 <= k < effects[i].args.len() && vars_of(
                    #[trigger] effects[i].args[k],
                ).contains(id);
            if i < init.len() {
                assert(vars_of(init[i].args[k]).contains(id));
            } else {
                assert(vars_of(last.args[k]).contains(id));
            }
        }
    }
}

} // verus!
