//! Substitutions: what type variables and row variables have been solved to.

use vstd::prelude::*;
use crate::diagnostics::{an_error, Diagnostic};
use crate::display::shown;
use crate::seqs::{
    add_new, add_new_contains, add_new_extends, add_new_in_turn, add_new_of_distinct,
    filter_contains, push_contains, push_new,
};
use crate::table::Table;
use crate::text::{concat, decimal, number_text};
use crate::types::{EffectEntry, EffectRow, Entry, Row, Ty, Type, group_type_models};
use crate::values::{append_values, push_value, Dup};

verus! {

broadcast use group_type_models;

/// What a substitution stands for.
#[verifier::ext_equal]
pub struct Sub {
    pub map: Map<u32, Ty>,
    pub row_map: Map<u32, Row>,
}

/// Maps type variable IDs to their solved types.
pub struct Substitution {
    map: Table<u32, Type>,
    row_map: Table<u32, EffectRow>,
}

impl View for Substitution {
    type V = Sub;

    closed spec fn view(&self) -> Sub {
        Sub { map: self.map.deep_view(), row_map: self.row_map.deep_view() }
    }
}

impl DeepView for Substitution {
    type V = Sub;

    open spec fn deep_view(&self) -> Sub {
        self@
    }
}

impl Dup for Substitution {
    fn dup(&self) -> (r: Self) {
        Substitution { map: self.map.dup(), row_map: self.row_map.dup() }
    }
}

/// `t` with its variables replaced by what they are solved to, chains of
/// variables followed `n` steps.
pub open spec fn apply_n(s: Sub, t: Ty, n: nat) -> Ty
    decreases n, 1nat, t,
{
    match t {
        Ty::Var(id) => if s.map.dom().contains(id) && n > 0 {
            apply_n(s, s.map[id], (n - 1) as nat)
        } else {
            t
        },
        Ty::Fun(a, b, row) => Ty::Fun(
            Box::new(apply_n(s, *a, n)),
            Box::new(apply_n(s, *b, n)),
            apply_row_n(s, row, n),
        ),
        Ty::Con(name, args) => Ty::Con(name, apply_all_n(s, args, n)),
        Ty::Record(fields) => Ty::Record(apply_fields_n(s, fields, n)),
        _ => t,
    }
}

pub open spec fn apply_all_n(s: Sub, ts: Seq<Ty>, n: nat) -> Seq<Ty>
    decreases n, 1nat, ts,
{
    Seq::new(
        ts.len(),
        |i: int|
            if 0 <= i < ts.len() {
                apply_n(s, ts[i], n)
            } else {
                Ty::Error
            },
    )
}

pub open spec fn apply_fields_n(s: Sub, fields: Seq<(Seq<char>, Ty)>, n: nat) -> Seq<
    (Seq<char>, Ty),
>
    decreases n, 1nat, fields,
{
    Seq::new(
        fields.len(),
        |i: int|
            if 0 <= i < fields.len() {
                (fields[i].0, apply_n(s, fields[i].1, n))
            } else {
                (Seq::empty(), Ty::Error)
            },
    )
}

pub open spec fn apply_entries_n(s: Sub, effects: Seq<Entry>, n: nat) -> Seq<Entry>
    decreases n, 1nat, effects,
{
    Seq::new(
        effects.len(),
        |i: int|
            if 0 <= i < effects.len() {
                Entry { name: effects[i].name, args: apply_all_n(s, effects[i].args, n) }
            } else {
                Entry { name: Seq::empty(), args: Seq::empty() }
            },
    )
}

/// A row with its tails followed through what row variables are solved to: the
/// effects that come to light on the way are added behind its own, each once,
/// and the tails at which the way ends stay.
pub open spec fn apply_row_n(s: Sub, row: Row, n: nat) -> Row
    decreases n, 1nat, row,
{
    let tails = apply_all_n(s, row.tails, n);
    Row {
        effects: add_new(
            Seq::empty(),
            apply_entries_n(s, row.effects, n) + found_effects_n(s, tails, n),
        ),
        tails: vars_once(end_tails_n(s, tails, n)),
    }
}

/// The effects behind `tails`: those of the rows that the tails themselves are
/// solved to, then those behind the tails of these rows.
pub open spec fn found_effects_n(s: Sub, tails: Seq<Ty>, n: nat) -> Seq<Entry>
    decreases n, 0nat, tails,
{
    if n == 0 {
        Seq::empty()
    } else {
        let m = (n - 1) as nat;
        next_effects_n(s, tails, m) + found_effects_n(s, next_tails_n(s, tails, m), m)
    }
}

/// The tails at which following `tails` ends.
pub open spec fn end_tails_n(s: Sub, tails: Seq<Ty>, n: nat) -> Seq<Ty>
    decreases n, 0nat, tails,
{
    if n == 0 {
        unsolved(s, tails)
    } else {
        let m = (n - 1) as nat;
        unsolved(s, tails) + end_tails_n(s, next_tails_n(s, tails, m), m)
    }
}

/// The effects of the rows that `tails` are solved to.
pub open spec fn next_effects_n(s: Sub, tails: Seq<Ty>, n: nat) -> Seq<Entry>
    decreases n, 2nat, tails,
{
    if tails.len() == 0 {
        Seq::empty()
    } else {
        let before = next_effects_n(s, tails.drop_last(), n);
        match tails.last() {
            Ty::Var(id) => if s.row_map.dom().contains(id) {
                before + apply_entries_n(s, s.row_map[id].effects, n)
            } else {
                before
            },
            _ => before,
        }
    }
}

/// The tails of the rows that `tails` are solved to.
pub open spec fn next_tails_n(s: Sub, tails: Seq<Ty>, n: nat) -> Seq<Ty>
    decreases n, 2nat, tails,
{
    if tails.len() == 0 {
        Seq::empty()
    } else {
        let before = next_tails_n(s, tails.drop_last(), n);
        match tails.last() {
            Ty::Var(id) => if s.row_map.dom().contains(id) {
                before + apply_all_n(s, s.row_map[id].tails, n)
            } else {
                before
            },
            _ => before,
        }
    }
}

/// Whether a tail is a row variable that has been solved.
pub open spec fn is_solved_tail(s: Sub, t: Ty) -> bool {
    t matches Ty::Var(id) && s.row_map.dom().contains(id)
}

/// The tails that are not row variables that have been solved.
pub open spec fn unsolved(s: Sub, tails: Seq<Ty>) -> Seq<Ty> {
    tails.filter(|t: Ty| !is_solved_tail(s, t))
}

/// The tails with each variable kept where it comes first only.
pub open spec fn vars_once(tails: Seq<Ty>) -> Seq<Ty>
    decreases tails.len(),
{
    if tails.len() == 0 {
        Seq::empty()
    } else {
        let before = vars_once(tails.drop_last());
        if tails.last() is Var && before.contains(tails.last()) {
            before
        } else {
            before.push(tails.last())
        }
    }
}

/// Ranks of variables: as type variables, and as row variables, that is as the tails
/// of rows.
pub struct Ranks {
    pub types: spec_fn(u32) -> nat,
    pub rows: spec_fn(u32) -> nat,
}

/// Every variable of `t` ranks below `n`.
pub open spec fn below(rank: Ranks, t: Ty, n: nat) -> bool
    decreases t, 0nat,
{
    match t {
        Ty::Var(id) => (rank.types)(id) < n,
        Ty::Fun(a, b, row) => below(rank, *a, n) && below(rank, *b, n) && row_below(rank, row, n),
        Ty::Con(name, args) => all_below(rank, args, n),
        Ty::Record(fields) => fields_below(rank, fields, n),
        _ => true,
    }
}

pub open spec fn fields_below(
    rank: Ranks,
    fields: Seq<(Seq<char>, Ty)>,
    n: nat,
) -> bool
    decreases fields, 0nat,
{
    forall|i: int| 0 <= i < fields.len() ==> below(rank, (#[trigger] fields[i]).1, n)
}

pub open spec fn all_below(rank: Ranks, ts: Seq<Ty>, n: nat) -> bool
    decreases ts, 0nat,
{
    forall|i: int| 0 <= i < ts.len() ==> below(rank, #[trigger] ts[i], n)
}

pub open spec fn entries_below(rank: Ranks, effects: Seq<Entry>, n: nat) -> bool
    decreases effects, 0nat,
{
    forall|i: int| 0 <= i < effects.len() ==> all_below(rank, (#[trigger] effects[i]).args, n)
}

pub open spec fn row_below(rank: Ranks, row: Row, n: nat) -> bool
    decreases row, 0nat,
{
    entries_below(rank, row.effects, n) && tails_below(rank, row.tails, n)
}

/// Every variable of a tail ranks below `n`.
pub open spec fn tail_below(rank: Ranks, t: Ty, n: nat) -> bool
    decreases t, 1nat,
{
    match t {
        Ty::Var(id) => (rank.rows)(id) < n,
        _ => below(rank, t, n),
    }
}

pub open spec fn tails_below(rank: Ranks, ts: Seq<Ty>, n: nat) -> bool
    decreases ts, 0nat,
{
    forall|i: int| 0 <= i < ts.len() ==> tail_below(rank, #[trigger] ts[i], n)
}

/// Every variable ranks below `n`, as a row variable not below what it ranks as a
/// type variable. Every solved one ranks above each variable of what it is solved
/// to.
pub open spec fn ranked(s: Sub, rank: Ranks, n: nat) -> bool {
    &&& forall|id: u32| (#[trigger] (rank.types)(id)) <= (rank.rows)(id)
    &&& forall|id: u32| (#[trigger] (rank.rows)(id)) < n
    &&& forall|id: u32| #[trigger]
        s.map.dom().contains(id) ==> below(rank, s.map[id], (rank.types)(id)) && tail_below(
            rank,
            s.map[id],
            (rank.rows)(id),
        )
    &&& forall|id: u32| #[trigger]
        s.row_map.dom().contains(id) ==> row_below(rank, s.row_map[id], (rank.rows)(id))
}

/// Every chain of variables ends within `n` steps.
pub open spec fn ranked_within(s: Sub, n: nat) -> bool {
    exists|rank: Ranks| ranked(s, rank, n)
}

/// No variable is solved, directly or through others, to something that it
/// occurs in.
pub open spec fn acyclic(s: Sub) -> bool {
    exists|n: nat| ranked_within(s, n)
}

/// A number of steps after which every chain of variables has ended.
pub open spec fn depth(s: Sub) -> nat {
    choose|n: nat| ranked_within(s, n)
}

/// `t` with every variable replaced by what it is solved to.
pub open spec fn applied(s: Sub, t: Ty) -> Ty {
    apply_n(s, t, depth(s))
}

pub open spec fn applied_row(s: Sub, row: Row) -> Row {
    apply_row_n(s, row, depth(s))
}

proof fn below_more(rank: Ranks, t: Ty, n: nat, m: nat)
    requires
        below(rank, t, n),
        n <= m,
    ensures
        below(rank, t, m),
    decreases t, 0nat,
{
    match t {
        Ty::Fun(a, b, row) => {
            below_more(rank, *a, n, m);
            below_more(rank, *b, n, m);
            row_below_more(rank, row, n, m);
        },
        Ty::Con(name, args) => {
            all_below_more(rank, args, n, m);
        },
        Ty::Record(fields) => {
            assert(fields_below(rank, fields, n));
            assert forall|i: int| 0 <= i < fields.len() implies below(
                rank,
                (#[trigger] fields[i]).1,
                m,
            ) by {
                below_more(rank, fields[i].1, n, m);
            }
            assert(fields_below(rank, fields, m));
        },
        _ => {},
    }
}

proof fn all_below_more(rank: Ranks, ts: Seq<Ty>, n: nat, m: nat)
    requires
        all_below(rank, ts, n),
        n <= m,
    ensures
        all_below(rank, ts, m),
    decreases ts, 0nat,
{
    assert forall|i: int| 0 <= i < ts.len() implies below(rank, #[trigger] ts[i], m) by {
        below_more(rank, ts[i], n, m);
    }
}

proof fn entries_below_more(rank: Ranks, effects: Seq<Entry>, n: nat, m: nat)
    requires
        entries_below(rank, effects, n),
        n <= m,
    ensures
        entries_below(rank, effects, m),
    decreases effects, 0nat,
{
    assert forall|i: int| 0 <= i < effects.len() implies all_below(
        rank,
        (#[trigger] effects[i]).args,
        m,
    ) by {
        all_below_more(rank, effects[i].args, n, m);
    }
}

proof fn row_below_more(rank: Ranks, row: Row, n: nat, m: nat)
    requires
        row_below(rank, row, n),
        n <= m,
    ensures
        row_below(rank, row, m),
    decreases row, 0nat,
{
    entries_below_more(rank, row.effects, n, m);
    tails_below_more(rank, row.tails, n, m);
}

proof fn tail_below_more(rank: Ranks, t: Ty, n: nat, m: nat)
    requires
        tail_below(rank, t, n),
        n <= m,
    ensures
        tail_below(rank, t, m),
    decreases t, 1nat,
{
    if !(t is Var) {
        below_more(rank, t, n, m);
    }
}

proof fn tails_below_more(rank: Ranks, ts: Seq<Ty>, n: nat, m: nat)
    requires
        tails_below(rank, ts, n),
        n <= m,
    ensures
        tails_below(rank, ts, m),
    decreases ts, 0nat,
{
    assert forall|i: int| 0 <= i < ts.len() implies tail_below(rank, #[trigger] ts[i], m) by {
        tail_below_more(rank, ts[i], n, m);
    }
}

/// What ranks below as a tail ranks below as a type.
proof fn tails_are_below(s: Sub, rank: Ranks, k: nat, ts: Seq<Ty>, n: nat)
    requires
        ranked(s, rank, k),
        tails_below(rank, ts, n),
    ensures
        all_below(rank, ts, n),
{
    assert forall|i: int| 0 <= i < ts.len() implies below(rank, #[trigger] ts[i], n) by {
        assert(tail_below(rank, ts[i], n));
        if let Ty::Var(id) = ts[i] {
            assert((rank.types)(id) <= (rank.rows)(id));
        }
    }
}

/// No variable of `t` has been solved, and its rows hold nothing twice.
pub open spec fn settled(s: Sub, t: Ty) -> bool
    decreases t,
{
    match t {
        Ty::Var(id) => !s.map.dom().contains(id),
        Ty::Fun(a, b, row) => settled(s, *a) && settled(s, *b) && row_settled(s, row),
        Ty::Con(name, args) => all_settled(s, args),
        Ty::Record(fields) => forall|i: int|
            0 <= i < fields.len() ==> settled(s, (#[trigger] fields[i]).1),
        _ => true,
    }
}

pub open spec fn all_settled(s: Sub, ts: Seq<Ty>) -> bool
    decreases ts,
{
    forall|i: int| 0 <= i < ts.len() ==> settled(s, #[trigger] ts[i])
}

pub open spec fn entries_settled(s: Sub, effects: Seq<Entry>) -> bool
    decreases effects,
{
    forall|i: int| 0 <= i < effects.len() ==> all_settled(s, (#[trigger] effects[i]).args)
}

pub open spec fn row_settled(s: Sub, row: Row) -> bool
    decreases row,
{
    &&& entries_settled(s, row.effects)
    &&& row.effects.no_duplicates()
    &&& all_settled(s, row.tails)
    &&& vars_once(row.tails) == row.tails
    &&& forall|i: int| 0 <= i < row.tails.len() ==> !is_solved_tail(s, #[trigger] row.tails[i])
}

proof fn apply_settles(s: Sub, rank: Ranks, k: nat, t: Ty, n: nat)
    requires
        ranked(s, rank, k),
        below(rank, t, n),
    ensures
        below(rank, apply_n(s, t, n), n),
        settled(s, apply_n(s, t, n)),
    decreases n, 1nat, t, 0nat,
{
    match t {
        Ty::Var(id) => {
            if s.map.dom().contains(id) {
                let m = (n - 1) as nat;
                below_more(rank, s.map[id], (rank.types)(id), m);
                apply_settles(s, rank, k, s.map[id], m);
                below_more(rank, apply_n(s, s.map[id], m), m, n);
            }
        },
        Ty::Fun(a, b, row) => {
            apply_settles(s, rank, k, *a, n);
            apply_settles(s, rank, k, *b, n);
            apply_row_settles(s, rank, k, row, n);
        },
        Ty::Con(name, args) => {
            apply_all_settles(s, rank, k, args, n);
        },
        Ty::Record(fields) => {
            let after = apply_fields_n(s, fields, n);
            assert(fields_below(rank, fields, n));
            assert forall|i: int| 0 <= i < after.len() implies below(
                rank,
                (#[trigger] after[i]).1,
                n,
            ) && settled(s, after[i].1) by {
                assert(below(rank, fields[i].1, n));
                apply_settles(s, rank, k, fields[i].1, n);
            }
            assert(fields_below(rank, after, n));
        },
        _ => {},
    }
}

proof fn apply_all_settles(s: Sub, rank: Ranks, k: nat, ts: Seq<Ty>, n: nat)
    requires
        ranked(s, rank, k),
        all_below(rank, ts, n),
    ensures
        all_below(rank, apply_all_n(s, ts, n), n),
        all_settled(s, apply_all_n(s, ts, n)),
    decreases n, 1nat, ts, 0nat,
{
    let after = apply_all_n(s, ts, n);
    assert forall|i: int| 0 <= i < after.len() implies below(rank, #[trigger] after[i], n)
        && settled(s, after[i]) by {
        assert(below(rank, ts[i], n));
        apply_settles(s, rank, k, ts[i], n);
    }
}

proof fn apply_tail_settles(s: Sub, rank: Ranks, k: nat, t: Ty, n: nat)
    requires
        ranked(s, rank, k),
        tail_below(rank, t, n),
    ensures
        tail_below(rank, apply_n(s, t, n), n),
        settled(s, apply_n(s, t, n)),
    decreases n, 1nat, t, 1nat,
{
    if let Ty::Var(id) = t {
        if s.map.dom().contains(id) {
            let m = (n - 1) as nat;
            tail_below_more(rank, s.map[id], (rank.rows)(id), m);
            apply_tail_settles(s, rank, k, s.map[id], m);
            tail_below_more(rank, apply_n(s, s.map[id], m), m, n);
        }
    } else {
        apply_settles(s, rank, k, t, n);
    }
}

proof fn apply_tails_settles(s: Sub, rank: Ranks, k: nat, ts: Seq<Ty>, n: nat)
    requires
        ranked(s, rank, k),
        tails_below(rank, ts, n),
    ensures
        tails_below(rank, apply_all_n(s, ts, n), n),
        all_settled(s, apply_all_n(s, ts, n)),
    decreases n, 1nat, ts, 0nat,
{
    let after = apply_all_n(s, ts, n);
    assert forall|i: int| 0 <= i < after.len() implies tail_below(rank, #[trigger] after[i], n)
        && settled(s, after[i]) by {
        assert(tail_below(rank, ts[i], n));
        apply_tail_settles(s, rank, k, ts[i], n);
    }
}

proof fn apply_entries_settles(
    s: Sub,
    rank: Ranks,
    k: nat,
    effects: Seq<Entry>,
    n: nat,
)
    requires
        ranked(s, rank, k),
        entries_below(rank, effects, n),
    ensures
        entries_below(rank, apply_entries_n(s, effects, n), n),
        entries_settled(s, apply_entries_n(s, effects, n)),
    decreases n, 1nat, effects, 0nat,
{
    let after = apply_entries_n(s, effects, n);
    assert forall|i: int| 0 <= i < after.len() implies all_below(
        rank,
        (#[trigger] after[i]).args,
        n,
    ) && all_settled(s, after[i].args) by {
        assert(all_below(rank, effects[i].args, n));
        apply_all_settles(s, rank, k, effects[i].args, n);
    }
}

proof fn next_settles(s: Sub, rank: Ranks, k: nat, tails: Seq<Ty>, n: nat)
    requires
        ranked(s, rank, k),
        tails_below(rank, tails, n + 1),
    ensures
        entries_below(rank, next_effects_n(s, tails, n), n),
        entries_settled(s, next_effects_n(s, tails, n)),
        tails_below(rank, next_tails_n(s, tails, n), n),
        all_settled(s, next_tails_n(s, tails, n)),
    decreases n, 2nat, tails, 0nat,
{
    if tails.len() > 0 {
        let init = tails.drop_last();
        assert(tails_below(rank, init, n + 1)) by {
            assert forall|i: int| 0 <= i < init.len() implies tail_below(
                rank,
                #[trigger] init[i],
                n + 1,
            ) by {
                assert(init[i] == tails[i]);
            }
        }
        next_settles(s, rank, k, init, n);
        assert(tail_below(rank, tails[tails.len() - 1], n + 1));
        match tails.last() {
            Ty::Var(id) => {
                if s.row_map.dom().contains(id) {
                    row_below_more(rank, s.row_map[id], (rank.rows)(id), n);
                    apply_entries_settles(s, rank, k, s.row_map[id].effects, n);
                    apply_tails_settles(s, rank, k, s.row_map[id].tails, n);
                }
            },
            _ => {},
        }
    }
}

proof fn unsolved_keeps(s: Sub, rank: Ranks, tails: Seq<Ty>, n: nat)
    requires
        tails_below(rank, tails, n),
        all_settled(s, tails),
    ensures
        tails_below(rank, unsolved(s, tails), n),
        all_settled(s, unsolved(s, tails)),
        forall|i: int|
            0 <= i < unsolved(s, tails).len() ==> !is_solved_tail(
                s,
                #[trigger] unsolved(s, tails)[i],
            ),
{
    let kept = unsolved(s, tails);
    assert forall|i: int| 0 <= i < kept.len() implies tail_below(rank, #[trigger] kept[i], n) && settled(
        s,
        kept[i],
    ) && !is_solved_tail(s, kept[i]) by {
        filter_contains(tails, |t: Ty| !is_solved_tail(s, t), kept[i]);
        assert(kept.contains(kept[i]));
        let j = choose|j: int| 0 <= j < tails.len() && tails[j] == kept[i];
        assert(tail_below(rank, tails[j], n));
    }
}

proof fn found_settles(s: Sub, rank: Ranks, k: nat, tails: Seq<Ty>, n: nat)
    requires
        ranked(s, rank, k),
        tails_below(rank, tails, n),
        all_settled(s, tails),
    ensures
        entries_below(rank, found_effects_n(s, tails, n), n),
        entries_settled(s, found_effects_n(s, tails, n)),
        tails_below(rank, end_tails_n(s, tails, n), n),
        all_settled(s, end_tails_n(s, tails, n)),
        forall|i: int|
            0 <= i < end_tails_n(s, tails, n).len() ==> !is_solved_tail(
                s,
                #[trigger] end_tails_n(s, tails, n)[i],
            ),
    decreases n, 0nat, tails, 0nat,
{
    unsolved_keeps(s, rank, tails, n);
    if n > 0 {
        let m = (n - 1) as nat;
        next_settles(s, rank, k, tails, m);
        let next = next_tails_n(s, tails, m);
        found_settles(s, rank, k, next, m);
        entries_below_more(rank, next_effects_n(s, tails, m), m, n);
        entries_below_more(rank, found_effects_n(s, next, m), m, n);
        tails_below_more(rank, end_tails_n(s, next, m), m, n);
    }
}

/// Each variable is kept once: keeping it once again changes nothing, and
/// nothing is made up.
proof fn vars_once_facts(tails: Seq<Ty>)
    ensures
        vars_once(vars_once(tails)) == vars_once(tails),
        forall|t: Ty| vars_once(tails).contains(t) <==> #[trigger] tails.contains(t),
    decreases tails.len(),
{
    if tails.len() > 0 {
        let init = tails.drop_last();
        let before = vars_once(init);
        vars_once_facts(init);
        let after = vars_once(tails);
        if !(tails.last() is Var && before.contains(tails.last())) {
            assert(after.drop_last() =~= before);
            assert(after.last() == tails.last());
        }
        assert forall|t: Ty| after.contains(t) <==> #[trigger] tails.contains(t) by {
            push_contains(init, tails.last(), t);
            push_contains(before, tails.last(), t);
            assert(tails =~= init.push(tails.last()));
            assert(init.contains(t) <==> before.contains(t));
        }
    }
}

proof fn apply_row_settles(s: Sub, rank: Ranks, k: nat, row: Row, n: nat)
    requires
        ranked(s, rank, k),
        row_below(rank, row, n),
    ensures
        row_below(rank, apply_row_n(s, row, n), n),
        row_settled(s, apply_row_n(s, row, n)),
    decreases n, 1nat, row, 0nat,
{
    let after = apply_row_n(s, row, n);
    let tails = apply_all_n(s, row.tails, n);
    let own = apply_entries_n(s, row.effects, n);
    let found = found_effects_n(s, tails, n);
    apply_entries_settles(s, rank, k, row.effects, n);
    apply_tails_settles(s, rank, k, row.tails, n);
    found_settles(s, rank, k, tails, n);
    add_new_extends(Seq::<Entry>::empty(), own + found);
    assert forall|i: int| 0 <= i < after.effects.len() implies all_below(
        rank,
        (#[trigger] after.effects[i]).args,
        n,
    ) && all_settled(s, after.effects[i].args) by {
        add_new_contains(Seq::<Entry>::empty(), own + found, after.effects[i]);
        assert(after.effects.contains(after.effects[i]));
        let j = choose|j: int| 0 <= j < (own + found).len() && (own + found)[j] == after.effects[i];
        if j < own.len() {
            assert(own[j] == after.effects[i]);
        } else {
            assert(found[j - own.len()] == after.effects[i]);
        }
    }
    let ends = end_tails_n(s, tails, n);
    vars_once_facts(ends);
    assert forall|i: int| 0 <= i < after.tails.len() implies tail_below(
        rank,
        #[trigger] after.tails[i],
        n,
    ) && settled(s, after.tails[i]) && !is_solved_tail(s, after.tails[i]) by {
        assert(vars_once(ends).contains(after.tails[i]));
        assert(ends.contains(after.tails[i]));
        let j = choose|j: int| 0 <= j < ends.len() && ends[j] == after.tails[i];
        assert(tail_below(rank, ends[j], n));
    }
}

proof fn settled_stays(s: Sub, t: Ty, n: nat)
    requires
        settled(s, t),
    ensures
        apply_n(s, t, n) == t,
    decreases t,
{
    match t {
        Ty::Fun(a, b, row) => {
            settled_stays(s, *a, n);
            settled_stays(s, *b, n);
            row_settled_stays(s, row, n);
        },
        Ty::Con(name, args) => {
            all_settled_stay(s, args, n);
        },
        Ty::Record(fields) => {
            assert forall|i: int| 0 <= i < fields.len() implies apply_fields_n(s, fields, n)[i]
                == fields[i] by {
                assert(settled(s, fields[i].1));
                settled_stays(s, fields[i].1, n);
            }
            assert(apply_fields_n(s, fields, n) =~= fields);
        },
        _ => {},
    }
}

proof fn all_settled_stay(s: Sub, ts: Seq<Ty>, n: nat)
    requires
        all_settled(s, ts),
    ensures
        apply_all_n(s, ts, n) == ts,
    decreases ts,
{
    assert forall|i: int| 0 <= i < ts.len() implies apply_all_n(s, ts, n)[i] == ts[i] by {
        assert(settled(s, ts[i]));
        settled_stays(s, ts[i], n);
    }
    assert(apply_all_n(s, ts, n) =~= ts);
}

proof fn unsolved_tails_end(s: Sub, tails: Seq<Ty>, n: nat)
    requires
        forall|i: int| 0 <= i < tails.len() ==> !is_solved_tail(s, #[trigger] tails[i]),
    ensures
        next_effects_n(s, tails, n) == Seq::<Entry>::empty(),
        next_tails_n(s, tails, n) == Seq::<Ty>::empty(),
        unsolved(s, tails) == tails,
    decreases tails.len(),
{
    reveal(Seq::filter);
    if tails.len() > 0 {
        let init = tails.drop_last();
        assert forall|i: int| 0 <= i < init.len() implies !is_solved_tail(
            s,
            #[trigger] init[i],
        ) by {
            assert(init[i] == tails[i]);
        }
        unsolved_tails_end(s, init, n);
        assert(!is_solved_tail(s, tails[tails.len() - 1]));
        assert(unsolved(s, tails) =~= tails);
    } else {
        assert(unsolved(s, tails) =~= tails);
    }
}

proof fn no_tails_end(s: Sub, n: nat)
    ensures
        found_effects_n(s, Seq::empty(), n) == Seq::<Entry>::empty(),
        end_tails_n(s, Seq::empty(), n) == Seq::<Ty>::empty(),
    decreases n,
{
    let none = Seq::<Ty>::empty();
    unsolved_tails_end(s, none, 0);
    if n > 0 {
        let m = (n - 1) as nat;
        unsolved_tails_end(s, none, m);
        no_tails_end(s, m);
        assert(found_effects_n(s, none, n) =~= Seq::<Entry>::empty());
        assert(end_tails_n(s, none, n) =~= Seq::<Ty>::empty());
    }
}

proof fn row_settled_stays(s: Sub, row: Row, n: nat)
    requires
        row_settled(s, row),
    ensures
        apply_row_n(s, row, n) == row,
    decreases row,
{
    all_settled_stay(s, row.tails, n);
    assert forall|i: int| 0 <= i < row.effects.len() implies apply_entries_n(s, row.effects, n)[i]
        == row.effects[i] by {
        assert(all_settled(s, row.effects[i].args));
        all_settled_stay(s, row.effects[i].args, n);
    }
    assert(apply_entries_n(s, row.effects, n) =~= row.effects);
    unsolved_tails_end(s, row.tails, 0);
    if n > 0 {
        let m = (n - 1) as nat;
        unsolved_tails_end(s, row.tails, m);
        no_tails_end(s, m);
    }
    assert(found_effects_n(s, row.tails, n) =~= Seq::<Entry>::empty());
    assert(end_tails_n(s, row.tails, n) =~= row.tails);
    assert(row.effects + Seq::<Entry>::empty() =~= row.effects);
    add_new_of_distinct(row.effects);
}

/// Applying a substitution leaves nothing to replace: no solved variable is
/// left, and applying it again changes nothing.
pub proof fn apply_is_final(s: Sub, t: Ty)
    requires
        acyclic(s),
    ensures
        settled(s, applied(s, t)),
        applied(s, applied(s, t)) == applied(s, t),
{
    let n = depth(s);
    let rank = choose|rank: Ranks| ranked(s, rank, n);
    all_rank_below(s, rank, n, t);
    apply_settles(s, rank, n, t, n);
    settled_stays(s, applied(s, t), n);
}

/// The same of effect rows.
pub proof fn apply_row_is_final(s: Sub, row: Row)
    requires
        acyclic(s),
    ensures
        row_settled(s, applied_row(s, row)),
        applied_row(s, applied_row(s, row)) == applied_row(s, row),
{
    let n = depth(s);
    let rank = choose|rank: Ranks| ranked(s, rank, n);
    row_all_rank_below(s, rank, n, row);
    apply_row_settles(s, rank, n, row, n);
    row_settled_stays(s, applied_row(s, row), n);
}

proof fn all_rank_below(s: Sub, rank: Ranks, n: nat, t: Ty)
    requires
        ranked(s, rank, n),
    ensures
        below(rank, t, n),
    decreases t,
{
    match t {
        Ty::Fun(a, b, row) => {
            all_rank_below(s, rank, n, *a);
            all_rank_below(s, rank, n, *b);
            row_all_rank_below(s, rank, n, row);
        },
        Ty::Con(name, args) => {
            each_rank_below(s, rank, n, args);
        },
        Ty::Record(fields) => {
            assert forall|i: int| 0 <= i < fields.len() implies below(
                rank,
                (#[trigger] fields[i]).1,
                n,
            ) by {
                all_rank_below(s, rank, n, fields[i].1);
            }
            assert(fields_below(rank, fields, n));
        },
        Ty::Var(id) => {
            assert((rank.types)(id) <= (rank.rows)(id));
            assert((rank.rows)(id) < n);
        },
        _ => {},
    }
}

proof fn each_rank_below(s: Sub, rank: Ranks, n: nat, ts: Seq<Ty>)
    requires
        ranked(s, rank, n),
    ensures
        all_below(rank, ts, n),
    decreases ts,
{
    assert forall|i: int| 0 <= i < ts.len() implies below(rank, #[trigger] ts[i], n) by {
        all_rank_below(s, rank, n, ts[i]);
    }
}

proof fn row_all_rank_below(s: Sub, rank: Ranks, n: nat, row: Row)
    requires
        ranked(s, rank, n),
    ensures
        row_below(rank, row, n),
    decreases row,
{
    assert forall|i: int| 0 <= i < row.effects.len() implies all_below(
        rank,
        (#[trigger] row.effects[i]).args,
        n,
    ) by {
        each_rank_below(s, rank, n, row.effects[i].args);
    }
    assert forall|i: int| 0 <= i < row.tails.len() implies tail_below(
        rank,
        #[trigger] row.tails[i],
        n,
    ) by {
        all_rank_below(s, rank, n, row.tails[i]);
    }
}

/// More steps than a type needs change nothing.
proof fn apply_stable(s: Sub, rank: Ranks, k: nat, t: Ty, n: nat, m: nat)
    requires
        ranked(s, rank, k),
        below(rank, t, n),
        below(rank, t, m),
    ensures
        apply_n(s, t, n) == apply_n(s, t, m),
    decreases n, 1nat, t,
{
    match t {
        Ty::Var(id) => {
            if s.map.dom().contains(id) {
                below_more(rank, s.map[id], (rank.types)(id), (n - 1) as nat);
                below_more(rank, s.map[id], (rank.types)(id), (m - 1) as nat);
                apply_stable(s, rank, k, s.map[id], (n - 1) as nat, (m - 1) as nat);
            }
        },
        Ty::Fun(a, b, row) => {
            apply_stable(s, rank, k, *a, n, m);
            apply_stable(s, rank, k, *b, n, m);
            apply_row_stable(s, rank, k, row, n, m);
        },
        Ty::Con(name, args) => {
            apply_all_stable(s, rank, k, args, n, m);
        },
        Ty::Record(fields) => {
            assert(fields_below(rank, fields, n) && fields_below(rank, fields, m));
            assert forall|i: int| 0 <= i < fields.len() implies apply_fields_n(s, fields, n)[i]
                == apply_fields_n(s, fields, m)[i] by {
                assert(below(rank, fields[i].1, n) && below(rank, fields[i].1, m));
                apply_stable(s, rank, k, fields[i].1, n, m);
            }
            assert(apply_fields_n(s, fields, n) =~= apply_fields_n(s, fields, m));
        },
        _ => {},
    }
}

proof fn apply_all_stable(
    s: Sub,
    rank: Ranks,
    k: nat,
    ts: Seq<Ty>,
    n: nat,
    m: nat,
)
    requires
        ranked(s, rank, k),
        all_below(rank, ts, n),
        all_below(rank, ts, m),
    ensures
        apply_all_n(s, ts, n) == apply_all_n(s, ts, m),
    decreases n, 1nat, ts,
{
    assert forall|i: int| 0 <= i < ts.len() implies apply_all_n(s, ts, n)[i] == apply_all_n(
        s,
        ts,
        m,
    )[i] by {
        assert(below(rank, ts[i], n) && below(rank, ts[i], m));
        apply_stable(s, rank, k, ts[i], n, m);
    }
    assert(apply_all_n(s, ts, n) =~= apply_all_n(s, ts, m));
}

proof fn apply_entries_stable(
    s: Sub,
    rank: Ranks,
    k: nat,
    effects: Seq<Entry>,
    n: nat,
    m: nat,
)
    requires
        ranked(s, rank, k),
        entries_below(rank, effects, n),
        entries_below(rank, effects, m),
    ensures
        apply_entries_n(s, effects, n) == apply_entries_n(s, effects, m),
    decreases n, 1nat, effects,
{
    assert forall|i: int| 0 <= i < effects.len() implies apply_entries_n(s, effects, n)[i]
        == apply_entries_n(s, effects, m)[i] by {
        assert(all_below(rank, effects[i].args, n) && all_below(rank, effects[i].args, m));
        apply_all_stable(s, rank, k, effects[i].args, n, m);
    }
    assert(apply_entries_n(s, effects, n) =~= apply_entries_n(s, effects, m));
}

proof fn next_stable(s: Sub, rank: Ranks, k: nat, tails: Seq<Ty>, n: nat, m: nat)
    requires
        ranked(s, rank, k),
        tails_below(rank, tails, n + 1),
        tails_below(rank, tails, m + 1),
    ensures
        next_effects_n(s, tails, n) == next_effects_n(s, tails, m),
        next_tails_n(s, tails, n) == next_tails_n(s, tails, m),
    decreases n, 2nat, tails,
{
    if tails.len() > 0 {
        let init = tails.drop_last();
        assert forall|i: int| 0 <= i < init.len() implies tail_below(
            rank,
            #[trigger] init[i],
            n + 1,
        ) && tail_below(rank, init[i], m + 1) by {
            assert(init[i] == tails[i]);
        }
        next_stable(s, rank, k, init, n, m);
        assert(tail_below(rank, tails[tails.len() - 1], n + 1) && tail_below(
            rank,
            tails[tails.len() - 1],
            m + 1,
        ));
        match tails.last() {
            Ty::Var(id) => {
                if s.row_map.dom().contains(id) {
                    row_below_more(rank, s.row_map[id], (rank.rows)(id), n);
                    row_below_more(rank, s.row_map[id], (rank.rows)(id), m);
                    apply_entries_stable(s, rank, k, s.row_map[id].effects, n, m);
                    tails_are_below(s, rank, k, s.row_map[id].tails, n);
                    tails_are_below(s, rank, k, s.row_map[id].tails, m);
                    apply_all_stable(s, rank, k, s.row_map[id].tails, n, m);
                }
            },
            _ => {},
        }
    }
}

proof fn no_steps_no_vars(s: Sub, rank: Ranks, tails: Seq<Ty>, m: nat)
    requires
        tails_below(rank, tails, 0),
    ensures
        found_effects_n(s, tails, m) == Seq::<Entry>::empty(),
        end_tails_n(s, tails, m) == tails,
{
    assert forall|i: int| 0 <= i < tails.len() implies !is_solved_tail(s, #[trigger] tails[i]) by {
        assert(tail_below(rank, tails[i], 0));
    }
    unsolved_tails_end(s, tails, 0);
    if m > 0 {
        unsolved_tails_end(s, tails, (m - 1) as nat);
        no_tails_end(s, (m - 1) as nat);
    }
    assert(found_effects_n(s, tails, m) =~= Seq::<Entry>::empty());
    assert(end_tails_n(s, tails, m) =~= tails);
}

proof fn found_stable(s: Sub, rank: Ranks, k: nat, tails: Seq<Ty>, n: nat, m: nat)
    requires
        ranked(s, rank, k),
        tails_below(rank, tails, n),
        tails_below(rank, tails, m),
        all_settled(s, tails),
    ensures
        found_effects_n(s, tails, n) == found_effects_n(s, tails, m),
        end_tails_n(s, tails, n) == end_tails_n(s, tails, m),
    decreases n, 0nat, tails,
{
    if n == 0 || m == 0 {
        no_steps_no_vars(s, rank, tails, n);
        no_steps_no_vars(s, rank, tails, m);
    } else {
        let n1 = (n - 1) as nat;
        let m1 = (m - 1) as nat;
        next_stable(s, rank, k, tails, n1, m1);
        next_settles(s, rank, k, tails, n1);
        next_settles(s, rank, k, tails, m1);
        found_stable(s, rank, k, next_tails_n(s, tails, n1), n1, m1);
    }
}

proof fn apply_row_stable(s: Sub, rank: Ranks, k: nat, row: Row, n: nat, m: nat)
    requires
        ranked(s, rank, k),
        row_below(rank, row, n),
        row_below(rank, row, m),
    ensures
        apply_row_n(s, row, n) == apply_row_n(s, row, m),
    decreases n, 1nat, row,
{
    apply_entries_stable(s, rank, k, row.effects, n, m);
    tails_are_below(s, rank, k, row.tails, n);
    tails_are_below(s, rank, k, row.tails, m);
    apply_all_stable(s, rank, k, row.tails, n, m);
    apply_tails_settles(s, rank, k, row.tails, n);
    apply_tails_settles(s, rank, k, row.tails, m);
    found_stable(s, rank, k, apply_all_n(s, row.tails, n), n, m);
}

/// A solved variable and the type that it is solved to are the same once the
/// substitution is applied.
pub proof fn apply_unfolds_solved(s: Sub, id: u32)
    requires
        acyclic(s),
        s.map.dom().contains(id),
    ensures
        applied(s, Ty::Var(id)) == applied(s, s.map[id]),
{
    let n = depth(s);
    let rank = choose|rank: Ranks| ranked(s, rank, n);
    assert((rank.types)(id) <= (rank.rows)(id));
    assert((rank.rows)(id) < n);
    all_rank_below(s, rank, n, s.map[id]);
    below_more(rank, s.map[id], (rank.types)(id), (n - 1) as nat);
    apply_stable(s, rank, n, s.map[id], (n - 1) as nat, n);
}

/// Unsolved variables, and types without solved variables, stay as they are.
pub proof fn apply_keeps_unsolved(s: Sub, t: Ty)
    requires
        settled(s, t),
    ensures
        applied(s, t) == t,
{
    settled_stays(s, t, depth(s));
}

impl Substitution {
    fn apply_at(
        &self,
        t: &Type,
        Ghost(rank): Ghost<Ranks>,
        Ghost(k): Ghost<nat>,
        Ghost(n): Ghost<nat>,
    ) -> (r: Type)
        requires
            ranked(self@, rank, k),
            below(rank, t@, n),
        ensures
            r@ == apply_n(self@, t@, n),
        decreases n, 3nat, t,
    {
        match t {
            Type::Var(id) => {
                match self.map.get(id) {
                    Some(resolved) => {
                        proof {
                            below_more(rank, resolved@, (rank.types)(*id), (n - 1) as nat);
                        }
                        self.apply_at(resolved, Ghost(rank), Ghost(k), Ghost((n - 1) as nat))
                    },
                    None => Type::Var(*id),
                }
            },
            Type::Fun(a, b, row) => Type::Fun(
                Box::new(self.apply_at(a, Ghost(rank), Ghost(k), Ghost(n))),
                Box::new(self.apply_at(b, Ghost(rank), Ghost(k), Ghost(n))),
                self.apply_row_at(row, Ghost(rank), Ghost(k), Ghost(n)),
            ),
            Type::Con(name, args) => Type::Con(
                name.clone(),
                self.apply_all_at(args, Ghost(rank), Ghost(k), Ghost(n)),
            ),
            Type::Record(fields) => Type::Record(
                self.apply_fields_at(fields, Ghost(rank), Ghost(k), Ghost(n)),
            ),
            Type::Symbol(name) => Type::Symbol(name.clone()),
            Type::Error => Type::Error,
        }
    }

    fn apply_all_at(
        &self,
        ts: &Vec<Type>,
        Ghost(rank): Ghost<Ranks>,
        Ghost(k): Ghost<nat>,
        Ghost(n): Ghost<nat>,
    ) -> (r: Vec<Type>)
        requires
            ranked(self@, rank, k),
            all_below(rank, ts.deep_view(), n),
        ensures
            r.deep_view() == apply_all_n(self@, ts.deep_view(), n),
        decreases n, 3nat, ts,
    {
        let mut out: Vec<Type> = Vec::new();
        let mut i: usize = 0;
        while i < ts.len()
            invariant
                i <= ts.len(),
                out.len() == i,
                ranked(self@, rank, k),
                all_below(rank, ts.deep_view(), n),
                forall|j: int|
                    0 <= j < i ==> #[trigger] out.deep_view()[j] == apply_n(
                        self@,
                        ts.deep_view()[j],
                        n,
                    ),
            decreases ts.len() - i,
        {
            assert(below(rank, ts.deep_view()[i as int], n));
            let ty = self.apply_at(&ts[i], Ghost(rank), Ghost(k), Ghost(n));
            push_value(&mut out, ty);
            i = i + 1;
        }
        assert(out.deep_view() =~= apply_all_n(self@, ts.deep_view(), n));
        out
    }

    fn apply_fields_at(
        &self,
        fields: &Vec<(String, Type)>,
        Ghost(rank): Ghost<Ranks>,
        Ghost(k): Ghost<nat>,
        Ghost(n): Ghost<nat>,
    ) -> (r: Vec<(String, Type)>)
        requires
            ranked(self@, rank, k),
            fields_below(rank, fields.deep_view(), n),
        ensures
            r.deep_view() == apply_fields_n(self@, fields.deep_view(), n),
        decreases n, 3nat, fields,
    {
        let mut out: Vec<(String, Type)> = Vec::new();
        let mut i: usize = 0;
        while i < fields.len()
            invariant
                i <= fields.len(),
                out.len() == i,
                ranked(self@, rank, k),
                fields_below(rank, fields.deep_view(), n),
                forall|j: int|
                    0 <= j < i ==> #[trigger] out.deep_view()[j] == (
                        fields.deep_view()[j].0,
                        apply_n(self@, fields.deep_view()[j].1, n),
                    ),
            decreases fields.len() - i,
        {
            assert(below(rank, fields.deep_view()[i as int].1, n));
            let ty = self.apply_at(&fields[i].1, Ghost(rank), Ghost(k), Ghost(n));
            push_value(&mut out, (fields[i].0.clone(), ty));
            i = i + 1;
        }
        assert(out.deep_view() =~= apply_fields_n(self@, fields.deep_view(), n));
        out
    }

    /// Adds the effects of `entries`, with the substitution applied, to those
    /// of `effects`, each once.
    fn add_effects_at(
        &self,
        effects: &mut Vec<EffectEntry>,
        entries: &Vec<EffectEntry>,
        Ghost(rank): Ghost<Ranks>,
        Ghost(k): Ghost<nat>,
        Ghost(n): Ghost<nat>,
    )
        requires
            ranked(self@, rank, k),
            entries_below(rank, entries.deep_view(), n),
        ensures
            final(effects).deep_view() == add_new(
                old(effects).deep_view(),
                apply_entries_n(self@, entries.deep_view(), n),
            ),
        decreases n, 3nat, entries,
    {
        let ghost before = effects.deep_view();
        let ghost all = apply_entries_n(self@, entries.deep_view(), n);
        let mut i: usize = 0;
        assert(all.take(0) =~= Seq::empty());
        while i < entries.len()
            invariant
                i <= entries.len(),
                ranked(self@, rank, k),
                entries_below(rank, entries.deep_view(), n),
                all == apply_entries_n(self@, entries.deep_view(), n),
                effects.deep_view() == add_new(before, all.take(i as int)),
            decreases entries.len() - i,
        {
            assert(all_below(rank, entries.deep_view()[i as int].args, n));
            let args = self.apply_all_at(&entries[i].args, Ghost(rank), Ghost(k), Ghost(n));
            let entry = EffectEntry { name: entries[i].name.clone(), args };
            proof {
                assert(all.take(i + 1).drop_last() =~= all.take(i as int));
                assert(all.take(i + 1).last() == entry@);
            }
            push_new(effects, entry);
            i = i + 1;
        }
        assert(all.take(i as int) =~= all);
    }

    fn apply_row_at(
        &self,
        row: &EffectRow,
        Ghost(rank): Ghost<Ranks>,
        Ghost(k): Ghost<nat>,
        Ghost(n): Ghost<nat>,
    ) -> (r: EffectRow)
        requires
            ranked(self@, rank, k),
            row_below(rank, row@, n),
        ensures
            r@ == apply_row_n(self@, row@, n),
        decreases n, 3nat, row,
    {
        let mut effects: Vec<EffectEntry> = Vec::new();
        assert(effects.deep_view() =~= Seq::empty());
        self.add_effects_at(&mut effects, &row.effects, Ghost(rank), Ghost(k), Ghost(n));
        proof {
            tails_are_below(self@, rank, k, row@.tails, n);
            apply_tails_settles(self@, rank, k, row@.tails, n);
        }
        let tails = self.apply_all_at(&row.tails, Ghost(rank), Ghost(k), Ghost(n));
        let ghost own = apply_entries_n(self@, row@.effects, n);
        let (found, ends) = self.follow_tails_at(
            tails,
            effects,
            Ghost(own),
            Ghost(rank),
            Ghost(k),
            Ghost(n),
        );
        EffectRow { effects: found, tails: ends }
    }

    /// One step behind one tail: adds the effects of the row that it is solved
    /// to and the tails of that row; a tail that is not solved has come to its
    /// end.
    fn follow_tail_at(
        &self,
        tail: &Type,
        effects: &mut Vec<EffectEntry>,
        next: &mut Vec<Type>,
        ends: &mut Vec<Type>,
        Ghost(before): Ghost<Seq<Ty>>,
        Ghost(rank): Ghost<Ranks>,
        Ghost(k): Ghost<nat>,
        Ghost(n): Ghost<nat>,
    )
        requires
            ranked(self@, rank, k),
            tail_below(rank, tail@, n),
            old(ends).deep_view() == vars_once(before),
        ensures
            is_solved_tail(self@, tail@) ==> {
                &&& final(effects).deep_view() == add_new(
                    old(effects).deep_view(),
                    apply_entries_n(self@, self@.row_map[tail@->Var_0].effects, one_less(n)),
                )
                &&& final(next).deep_view() == old(next).deep_view() + apply_all_n(
                    self@,
                    self@.row_map[tail@->Var_0].tails,
                    one_less(n),
                )
                &&& final(ends).deep_view() == old(ends).deep_view()
            },
            !is_solved_tail(self@, tail@) ==> {
                &&& final(effects).deep_view() == old(effects).deep_view()
                &&& final(next).deep_view() == old(next).deep_view()
                &&& final(ends).deep_view() == vars_once(before.push(tail@))
            },
        decreases n, 0nat, tail,
    {
        match self.solved_row(tail) {
            Some(bound) => {
                proof {
                    row_below_more(rank, bound@, (rank.rows)(tail@->Var_0), one_less(n));
                }
                self.add_row_at(bound, effects, next, Ghost(rank), Ghost(k), Ghost(one_less(n)));
            },
            None => {
                push_tail(ends, tail.dup(), Ghost(before));
            },
        }
    }

    /// The row that a tail is solved to.
    fn solved_row(&self, tail: &Type) -> (r: Option<&EffectRow>)
        ensures
            match r {
                Some(row) => is_solved_tail(self@, tail@) && row@ == self@.row_map[tail@->Var_0],
                None => !is_solved_tail(self@, tail@),
            },
    {
        match tail {
            Type::Var(id) => self.row_map.get(id),
            _ => None,
        }
    }

    fn add_row_at(
        &self,
        row: &EffectRow,
        effects: &mut Vec<EffectEntry>,
        next: &mut Vec<Type>,
        Ghost(rank): Ghost<Ranks>,
        Ghost(k): Ghost<nat>,
        Ghost(n): Ghost<nat>,
    )
        requires
            ranked(self@, rank, k),
            row_below(rank, row@, n),
        ensures
            final(effects).deep_view() == add_new(
                old(effects).deep_view(),
                apply_entries_n(self@, row@.effects, n),
            ),
            final(next).deep_view() == old(next).deep_view() + apply_all_n(self@, row@.tails, n),
        decreases n, 3nat, row,
    {
        self.add_effects_at(effects, &row.effects, Ghost(rank), Ghost(k), Ghost(n));
        proof {
            tails_are_below(self@, rank, k, row@.tails, n);
        }
        let mut more = self.apply_all_at(&row.tails, Ghost(rank), Ghost(k), Ghost(n));
        append_values(next, &mut more);
    }

    /// One step behind each tail of `level`.
    fn follow_level_at(
        &self,
        level: &Vec<Type>,
        effects: &mut Vec<EffectEntry>,
        ends: &mut Vec<Type>,
        Ghost(seen): Ghost<Seq<Entry>>,
        Ghost(ended): Ghost<Seq<Ty>>,
        Ghost(rank): Ghost<Ranks>,
        Ghost(k): Ghost<nat>,
        Ghost(n): Ghost<nat>,
    ) -> (next: Vec<Type>)
        requires
            ranked(self@, rank, k),
            tails_below(rank, level.deep_view(), n),
            old(effects).deep_view() == add_new(Seq::empty(), seen),
            old(ends).deep_view() == vars_once(ended),
        ensures
            final(effects).deep_view() == add_new(
                Seq::empty(),
                seen + next_effects_n(self@, level.deep_view(), one_less(n)),
            ),
            final(ends).deep_view() == vars_once(ended + unsolved(self@, level.deep_view())),
            next.deep_view() == next_tails_n(self@, level.deep_view(), one_less(n)),
        decreases n, 1nat, level,
    {
        let ghost m = one_less(n);
        let ghost here = level.deep_view();
        let mut next: Vec<Type> = Vec::new();
        let mut i: usize = 0;
        let ghost mut found = Seq::<Entry>::empty();
        let ghost mut stuck = ended;
        proof {
            nothing_followed(self@, here, ended, m);
            assert(next.deep_view() =~= Seq::empty());
            assert(seen + found =~= seen);
        }
        while i < level.len()
            invariant
                i <= level.len(),
                m == one_less(n),
                ranked(self@, rank, k),
                here == level.deep_view(),
                tails_below(rank, here, n),
                effects.deep_view() == add_new(Seq::empty(), seen + found),
                ends.deep_view() == vars_once(stuck),
                found == next_effects_n(self@, here.take(i as int), m),
                next.deep_view() == next_tails_n(self@, here.take(i as int), m),
                stuck == ended + unsolved(self@, here.take(i as int)),
            decreases level.len() - i,
        {
            let ghost t = here[i as int];
            let ghost done = here.take(i as int);
            let ghost more = apply_entries_n(self@, self@.row_map[t->Var_0].effects, m);
            proof {
                assert(here.take(i + 1) =~= done.push(t));
                unsolved_push(self@, ended, done, t);
                next_push(self@, done, t, m);
                add_new_in_turn(Seq::<Entry>::empty(), seen + found, more);
                assert(seen + (found + more) =~= (seen + found) + more);
            }
            self.follow_tail_at(
                &level[i],
                effects,
                &mut next,
                ends,
                Ghost(stuck),
                Ghost(rank),
                Ghost(k),
                Ghost(n),
            );
            proof {
                found = next_effects_n(self@, done.push(t), m);
                stuck = ended + unsolved(self@, done.push(t));
            }
            i = i + 1;
        }
        assert(here.take(i as int) =~= here);
        next
    }

    /// Follows the tails level by level, adding the effects that come to light.
    fn follow_tails_at(
        &self,
        tails: Vec<Type>,
        effects: Vec<EffectEntry>,
        Ghost(own): Ghost<Seq<Entry>>,
        Ghost(rank): Ghost<Ranks>,
        Ghost(k): Ghost<nat>,
        Ghost(n): Ghost<nat>,
    ) -> (r: (Vec<EffectEntry>, Vec<Type>))
        requires
            ranked(self@, rank, k),
            tails_below(rank, tails.deep_view(), n),
            effects.deep_view() == add_new(Seq::empty(), own),
        ensures
            r.0.deep_view() == add_new(
                Seq::empty(),
                own + found_effects_n(self@, tails.deep_view(), n),
            ),
            r.1.deep_view() == vars_once(end_tails_n(self@, tails.deep_view(), n)),
        decreases n, 2nat, tails,
    {
        let mut effects = effects;
        let mut ends: Vec<Type> = Vec::new();
        let mut level = tails;
        let ghost mut m = n;
        let ghost mut seen = own;
        let ghost mut ended = Seq::<Ty>::empty();
        let ghost all_found = own + found_effects_n(self@, tails.deep_view(), n);
        let ghost all_ends = end_tails_n(self@, tails.deep_view(), n);
        assert(ends.deep_view() =~= Seq::empty());
        assert(ended + all_ends =~= all_ends);
        while level.len() > 0
            invariant
                m <= n,
                ranked(self@, rank, k),
                tails_below(rank, level.deep_view(), m),
                effects.deep_view() == add_new(Seq::empty(), seen),
                ends.deep_view() == vars_once(ended),
                seen + found_effects_n(self@, level.deep_view(), m) == all_found,
                ended + end_tails_n(self@, level.deep_view(), m) == all_ends,
            decreases m, level.len(),
        {
            let next = self.follow_level_at(
                &level,
                &mut effects,
                &mut ends,
                Ghost(seen),
                Ghost(ended),
                Ghost(rank),
                Ghost(k),
                Ghost(m),
            );
            proof {
                let here = level.deep_view();
                found_in_steps(self@, rank, k, here, seen, ended, m);
                seen = seen + next_effects_n(self@, here, one_less(m));
                ended = ended + unsolved(self@, here);
                m = one_less(m);
                assert(next.deep_view().len() == next.len());
            }
            level = next;
        }
        proof {
            assert(level.deep_view() =~= Seq::empty());
            no_tails_end(self@, m);
            assert(seen =~= all_found);
            assert(ended =~= all_ends);
        }
        (effects, ends)
    }
}

spec fn one_less(n: nat) -> nat {
    if n > 0 {
        (n - 1) as nat
    } else {
        0
    }
}

proof fn found_in_steps(
    s: Sub,
    rank: Ranks,
    k: nat,
    level: Seq<Ty>,
    seen: Seq<Entry>,
    ended: Seq<Ty>,
    n: nat,
)
    requires
        ranked(s, rank, k),
        tails_below(rank, level, n),
    ensures
        tails_below(rank, next_tails_n(s, level, one_less(n)), one_less(n)),
        n == 0 ==> next_tails_n(s, level, one_less(n)).len() == 0,
        (seen + next_effects_n(s, level, one_less(n))) + found_effects_n(
            s,
            next_tails_n(s, level, one_less(n)),
            one_less(n),
        ) == seen + found_effects_n(s, level, n),
        (ended + unsolved(s, level)) + end_tails_n(
            s,
            next_tails_n(s, level, one_less(n)),
            one_less(n),
        ) == ended + end_tails_n(s, level, n),
{
    let m = one_less(n);
    let next = next_tails_n(s, level, m);
    if n == 0 {
        assert forall|j: int| 0 <= j < level.len() implies !is_solved_tail(
            s,
            #[trigger] level[j],
        ) by {
            assert(tail_below(rank, level[j], 0));
        }
        unsolved_tails_end(s, level, m);
        no_tails_end(s, m);
    } else {
        next_settles(s, rank, k, level, m);
    }
    assert((seen + next_effects_n(s, level, m)) + found_effects_n(s, next, m) =~= seen
        + found_effects_n(s, level, n));
    assert((ended + unsolved(s, level)) + end_tails_n(s, next, m) =~= ended + end_tails_n(
        s,
        level,
        n,
    ));
}

proof fn nothing_followed(s: Sub, tails: Seq<Ty>, ended: Seq<Ty>, n: nat)
    ensures
        next_effects_n(s, tails.take(0), n) == Seq::<Entry>::empty(),
        next_tails_n(s, tails.take(0), n) == Seq::<Ty>::empty(),
        ended + unsolved(s, tails.take(0)) == ended,
{
    reveal(Seq::filter);
    assert(tails.take(0) =~= Seq::empty());
    assert(ended + unsolved(s, tails.take(0)) =~= ended);
}

proof fn next_push(s: Sub, tails: Seq<Ty>, t: Ty, n: nat)
    ensures
        !is_solved_tail(s, t) ==> next_effects_n(s, tails.push(t), n) == next_effects_n(s, tails, n)
            && next_tails_n(s, tails.push(t), n) == next_tails_n(s, tails, n),
        is_solved_tail(s, t) ==> next_effects_n(s, tails.push(t), n) == next_effects_n(s, tails, n)
            + apply_entries_n(s, s.row_map[t->Var_0].effects, n) && next_tails_n(
            s,
            tails.push(t),
            n,
        ) == next_tails_n(s, tails, n) + apply_all_n(s, s.row_map[t->Var_0].tails, n),
{
    assert(tails.push(t).drop_last() =~= tails);
}

proof fn unsolved_push(s: Sub, ended: Seq<Ty>, tails: Seq<Ty>, t: Ty)
    ensures
        is_solved_tail(s, t) ==> unsolved(s, tails.push(t)) == unsolved(s, tails),
        !is_solved_tail(s, t) ==> ended + unsolved(s, tails.push(t)) == (ended + unsolved(
            s,
            tails,
        )).push(t),
{
    reveal(Seq::filter);
    assert(tails.push(t).drop_last() =~= tails);
    if !is_solved_tail(s, t) {
        assert(ended + unsolved(s, tails).push(t) =~= (ended + unsolved(s, tails)).push(t));
    }
}

/// Adds a tail, a variable only where it is not there yet.
fn push_tail(ends: &mut Vec<Type>, t: Type, Ghost(before): Ghost<Seq<Ty>>)
    requires
        old(ends).deep_view() == vars_once(before),
    ensures
        final(ends).deep_view() == vars_once(before.push(t@)),
{
    assert(before.push(t@).drop_last() =~= before);
    let is_var = match &t {
        Type::Var(_) => true,
        _ => false,
    };
    if is_var {
        push_new(ends, t);
    } else {
        push_value(ends, t);
    }
}

/// `t`, or where it is a solved variable, the type at the end of its chain of
/// variables.
pub open spec fn resolve_n(s: Sub, t: Ty, n: nat) -> Ty
    decreases n,
{
    match t {
        Ty::Var(id) => if s.map.dom().contains(id) && n > 0 {
            resolve_n(s, s.map[id], (n - 1) as nat)
        } else {
            t
        },
        _ => t,
    }
}

pub open spec fn resolved(s: Sub, t: Ty) -> Ty {
    resolve_n(s, t, depth(s))
}

/// Whether `id` occurs in `t`, chains of solved variables followed `n` steps.
/// Row tails are not looked at.
pub open spec fn occurs_n(s: Sub, id: u32, t: Ty, n: nat) -> bool
    decreases n, t,
{
    match t {
        Ty::Var(other) => other == id || (s.map.dom().contains(other) && n > 0 && occurs_n(
            s,
            id,
            s.map[other],
            (n - 1) as nat,
        )),
        Ty::Fun(a, b, row) => occurs_n(
            s,
            id,
            *a,
            n,
        ) || occurs_n(s, id, *b, n) || occurs_in_entries_n(
            s,
            id,
            row.effects,
            n,
        ),
        Ty::Con(name, args) => occurs_in_any_n(s, id, args, n),
        Ty::Record(fields) => occurs_in_fields_n(s, id, fields, n),
        _ => false,
    }
}

pub open spec fn occurs_in_any_n(s: Sub, id: u32, ts: Seq<Ty>, n: nat) -> bool
    decreases n, ts,
{
    exists|i: int| 0 <= i < ts.len() && occurs_n(s, id, #[trigger] ts[i], n)
}

pub open spec fn occurs_in_fields_n(
    s: Sub,
    id: u32,
    fields: Seq<(Seq<char>, Ty)>,
    n: nat,
) -> bool
    decreases n, fields,
{
    exists|i: int| 0 <= i < fields.len() && occurs_n(s, id, (#[trigger] fields[i]).1, n)
}

pub open spec fn occurs_in_entries_n(s: Sub, id: u32, effects: Seq<Entry>, n: nat) -> bool
    decreases n, effects,
{
    exists|i: int| 0 <= i < effects.len() && occurs_in_any_n(s, id, (#[trigger] effects[i]).args, n)
}

pub open spec fn occurs_in(s: Sub, id: u32, t: Ty) -> bool {
    occurs_n(s, id, t, depth(s))
}

/// What comes of solving `id` to `ty`: nothing where `ty` is the variable
/// itself, an error where the variable occurs in `ty`.
pub open spec fn bound(s: Sub, id: u32, t: Ty) -> Result<Sub, Seq<char>> {
    if t == Ty::Var(id) {
        Ok(s)
    } else if occurs_in(s, id, t) {
        Err("infinite type: ?"@ + decimal(id as nat) + " occurs in "@ + shown(t))
    } else {
        Ok(Sub { map: s.map.insert(id, t), ..s })
    }
}

/// What comes of solving the row variable `id` to `row`: nothing where the row
/// is the variable alone, an error where the variable is one of its tails
/// otherwise.
pub open spec fn row_bound(s: Sub, id: u32, row: Row) -> Result<Sub, Seq<char>> {
    if !row.tails.contains(Ty::Var(id)) {
        Ok(Sub { row_map: s.row_map.insert(id, row), ..s })
    } else if row.effects.len() == 0 && forall|i: int|
        0 <= i < row.tails.len() ==> #[trigger] row.tails[i] == Ty::Var(id) {
        Ok(s)
    } else {
        Err("infinite effect row: ?"@ + decimal(id as nat) + " occurs in its own binding"@)
    }
}

impl Substitution {
    pub fn new() -> (r: Self)
        ensures
            r@ == (Sub { map: Map::empty(), row_map: Map::empty() }),
            r@.map.dom().len() == 0,
            acyclic(r@),
            holds_no_tails(r@),
    {
        let r = Substitution { map: Table::new(), row_map: Table::new() };
        proof {
            nothing_solved_is_acyclic();
        }
        r
    }

    /// Number of solved type-variable bindings.
    pub fn solved_count(&self) -> (n: usize)
        ensures
            n == self@.map.dom().len(),
            self@.map.dom().finite(),
    {
        self.map.len()
    }

    /// Apply the substitution to a type, following chains of variables.
    pub fn apply(&self, ty: &Type) -> (r: Type)
        requires
            acyclic(self@),
        ensures
            r@ == applied(self@, ty@),
    {
        let ghost n = depth(self@);
        let ghost rank = choose|rank: Ranks| ranked(self@, rank, n);
        proof {
            all_rank_below(self@, rank, n, ty@);
        }
        self.apply_at(ty, Ghost(rank), Ghost(n), Ghost(n))
    }

    /// Apply the substitution to an effect row, resolving type args and chasing
    /// row variable bindings.
    pub fn apply_effect_row(&self, row: &EffectRow) -> (r: EffectRow)
        requires
            acyclic(self@),
        ensures
            r@ == applied_row(self@, row@),
    {
        let ghost n = depth(self@);
        let ghost rank = choose|rank: Ranks| ranked(self@, rank, n);
        proof {
            row_all_rank_below(self@, rank, n, row@);
        }
        self.apply_row_at(row, Ghost(rank), Ghost(n), Ghost(n))
    }

    /// Resolve a type variable to its binding, without applying the
    /// substitution to the type found.
    pub fn resolve_var<'a>(&'a self, ty: &'a Type) -> (r: &'a Type)
        requires
            acyclic(self@),
        ensures
            r@ == resolved(self@, ty@),
    {
        let ghost n = depth(self@);
        let ghost rank = choose|rank: Ranks| ranked(self@, rank, n);
        let ghost mut m = n;
        let mut current = ty;
        proof {
            all_rank_below(self@, rank, n, ty@);
        }
        loop
            invariant
                n == depth(self@),
                ranked(self@, rank, n),
                below(rank, current@, m),
                resolve_n(self@, current@, m) == resolve_n(self@, ty@, n),
            decreases m,
        {
            let solved = match current {
                Type::Var(id) => self.map.get(id),
                _ => None,
            };
            match solved {
                Some(next) => {
                    proof {
                        below_more(rank, next@, (rank.types)(current@->Var_0), (m - 1) as nat);
                        m = (m - 1) as nat;
                    }
                    current = next;
                },
                None => {
                    return current;
                },
            }
        }
    }

    /// Bind a row variable to an effect row, with occurs check.
    pub fn bind_row(&mut self, id: u32, row: EffectRow) -> (r: Result<(), Diagnostic>)
        ensures
            match row_bound(old(self)@, id, row@) {
                Ok(s) => r is Ok && final(self)@ == s,
                Err(message) => r matches Err(d) && d@ == an_error(message) && final(self)@ == old(
                    self,
                )@,
            },
    {
        let mut mentions_self = false;
        let mut only_self = row.effects.len() == 0;
        let mut i: usize = 0;
        assert(row.effects.deep_view().len() == row.effects.len());
        while i < row.tails.len()
            invariant
                i <= row.tails.len(),
                mentions_self <==> exists|j: int|
                    0 <= j < i && #[trigger] row@.tails[j] == Ty::Var(id),
                only_self <==> row@.effects.len() == 0 && forall|j: int|
                    0 <= j < i ==> #[trigger] row@.tails[j] == Ty::Var(id),
            decreases row.tails.len() - i,
        {
            assert(row@.tails[i as int] == row.tails@[i as int]@);
            let is_self = match &row.tails[i] {
                Type::Var(v) => *v == id,
                _ => false,
            };
            if is_self {
                mentions_self = true;
            } else {
                only_self = false;
            }
            i = i + 1;
        }
        assert(mentions_self <==> row@.tails.contains(Ty::Var(id)));
        if mentions_self {
            if only_self {
                return Ok(());
            }
            let n = number_text(id as u64);
            let mut message = concat("infinite effect row: ?", n.as_str());
            message.append(" occurs in its own binding");
            return Err(Diagnostic::error(message));
        }
        self.row_map.insert(id, row);
        Ok(())
    }

    /// Bind a type variable to a type, with occurs check.
    pub fn bind(&mut self, id: u32, ty: &Type) -> (r: Result<(), Diagnostic>)
        requires
            acyclic(old(self)@),
        ensures
            match bound(old(self)@, id, ty@) {
                Ok(s) => r is Ok && final(self)@ == s,
                Err(message) => r matches Err(d) && d@ == an_error(message) && final(self)@ == old(
                    self,
                )@,
            },
            holds_no_tails(old(self)@) && is_tailless(ty@) ==> acyclic(final(self)@)
                && holds_no_tails(final(self)@),
    {
        proof {
            if holds_no_tails(self@) && is_tailless(ty@) && ty@ != Ty::Var(id) && bound(
                self@,
                id,
                ty@,
            ) is Ok {
                occurs_check_keeps_acyclic(self@, id, ty@);
            }
        }
        if let Type::Var(other) = ty {
            if *other == id {
                return Ok(());
            }
        }
        if self.occurs(id, ty) {
            let n = number_text(id as u64);
            let mut message = concat("infinite type: ?", n.as_str());
            message.append(" occurs in ");
            message.append(ty.display().as_str());
            return Err(Diagnostic::error(message));
        }
        self.map.insert(id, ty.dup());
        Ok(())
    }

    /// Check if a type variable occurs inside a type (prevents infinite types).
    fn occurs(&self, id: u32, ty: &Type) -> (r: bool)
        requires
            acyclic(self@),
        ensures
            r == occurs_in(self@, id, ty@),
    {
        let ghost n = depth(self@);
        let ghost rank = choose|rank: Ranks| ranked(self@, rank, n);
        proof {
            all_rank_below(self@, rank, n, ty@);
        }
        self.occurs_at(id, ty, Ghost(rank), Ghost(n), Ghost(n))
    }

    fn occurs_at(
        &self,
        id: u32,
        t: &Type,
        Ghost(rank): Ghost<Ranks>,
        Ghost(k): Ghost<nat>,
        Ghost(n): Ghost<nat>,
    ) -> (r: bool)
        requires
            ranked(self@, rank, k),
            below(rank, t@, n),
        ensures
            r == occurs_n(self@, id, t@, n),
        decreases n, t,
    {
        match t {
            Type::Var(other) => {
                if *other == id {
                    return true;
                }
                match self.map.get(other) {
                    Some(next) => {
                        proof {
                            assert(self@.map.dom().contains(*other));
                            below_more(rank, next@, (rank.types)(*other), (n - 1) as nat);
                        }
                        self.occurs_at(id, next, Ghost(rank), Ghost(k), Ghost((n - 1) as nat))
                    },
                    None => false,
                }
            },
            Type::Fun(a, b, row) => {
                assert(row_below(rank, row@, n));
                self.occurs_at(id, a, Ghost(rank), Ghost(k), Ghost(n)) || self.occurs_at(
                    id,
                    b,
                    Ghost(rank),
                    Ghost(k),
                    Ghost(n),
                ) || self.occurs_in_entries_at(
                    id,
                    &row.effects,
                    Ghost(rank),
                    Ghost(k),
                    Ghost(n),
                )
            },
            Type::Con(_, args) => self.occurs_in_any_at(
                id,
                args,
                Ghost(rank),
                Ghost(k),
                Ghost(n),
            ),
            Type::Record(fields) => self.occurs_in_fields_at(
                id,
                fields,
                Ghost(rank),
                Ghost(k),
                Ghost(n),
            ),
            Type::Symbol(_) => false,
            Type::Error => false,
        }
    }

    fn occurs_in_any_at(
        &self,
        id: u32,
        ts: &Vec<Type>,
        Ghost(rank): Ghost<Ranks>,
        Ghost(k): Ghost<nat>,
        Ghost(n): Ghost<nat>,
    ) -> (r: bool)
        requires
            ranked(self@, rank, k),
            all_below(rank, ts.deep_view(), n),
        ensures
            r == occurs_in_any_n(self@, id, ts.deep_view(), n),
        decreases n, ts,
    {
        let mut i: usize = 0;
        while i < ts.len()
            invariant
                i <= ts.len(),
                ranked(self@, rank, k),
                all_below(rank, ts.deep_view(), n),
                forall|j: int| 0 <= j < i ==> !occurs_n(self@, id, #[trigger] ts.deep_view()[j], n),
            decreases ts.len() - i,
        {
            assert(below(rank, ts.deep_view()[i as int], n));
            if self.occurs_at(id, &ts[i], Ghost(rank), Ghost(k), Ghost(n)) {
                assert(occurs_n(self@, id, ts.deep_view()[i as int], n));
                return true;
            }
            i = i + 1;
        }
        false
    }

    fn occurs_in_fields_at(
        &self,
        id: u32,
        fields: &Vec<(String, Type)>,
        Ghost(rank): Ghost<Ranks>,
        Ghost(k): Ghost<nat>,
        Ghost(n): Ghost<nat>,
    ) -> (r: bool)
        requires
            ranked(self@, rank, k),
            fields_below(rank, fields.deep_view(), n),
        ensures
            r == occurs_in_fields_n(self@, id, fields.deep_view(), n),
        decreases n, fields,
    {
        let mut i: usize = 0;
        while i < fields.len()
            invariant
                i <= fields.len(),
                ranked(self@, rank, k),
                fields_below(rank, fields.deep_view(), n),
                forall|j: int|
                    0 <= j < i ==> !occurs_n(self@, id, (#[trigger] fields.deep_view()[j]).1, n),
            decreases fields.len() - i,
        {
            assert(below(rank, fields.deep_view()[i as int].1, n));
            if self.occurs_at(id, &fields[i].1, Ghost(rank), Ghost(k), Ghost(n)) {
                assert(occurs_n(self@, id, fields.deep_view()[i as int].1, n));
                return true;
            }
            i = i + 1;
        }
        false
    }

    fn occurs_in_entries_at(
        &self,
        id: u32,
        effects: &Vec<EffectEntry>,
        Ghost(rank): Ghost<Ranks>,
        Ghost(k): Ghost<nat>,
        Ghost(n): Ghost<nat>,
    ) -> (r: bool)
        requires
            ranked(self@, rank, k),
            entries_below(rank, effects.deep_view(), n),
        ensures
            r == occurs_in_entries_n(self@, id, effects.deep_view(), n),
        decreases n, effects,
    {
        let mut i: usize = 0;
        while i < effects.len()
            invariant
                i <= effects.len(),
                ranked(self@, rank, k),
                entries_below(rank, effects.deep_view(), n),
                forall|j: int|
                    0 <= j < i ==> !occurs_in_any_n(
                        self@,
                        id,
                        (#[trigger] effects.deep_view()[j]).args,
                        n,
                    ),
            decreases effects.len() - i,
        {
            assert(all_below(rank, effects.deep_view()[i as int].args, n));
            if self.occurs_in_any_at(id, &effects[i].args, Ghost(rank), Ghost(k), Ghost(n)) {
                assert(occurs_in_any_n(self@, id, effects.deep_view()[i as int].args, n));
                return true;
            }
            i = i + 1;
        }
        false
    }
}

proof fn nothing_solved_is_acyclic()
    ensures
        acyclic(Sub { map: Map::empty(), row_map: Map::empty() }),
{
    let s = Sub { map: Map::<u32, Ty>::empty(), row_map: Map::<u32, Row>::empty() };
    let rank = Ranks { types: |id: u32| 0nat, rows: |id: u32| 0nat };
    assert(ranked(s, rank, 1));
    assert(ranked_within(s, 1));
}

/// Variables: type variables, and row variables, that is tails of rows.
pub struct Vars {
    pub types: Set<u32>,
    pub rows: Set<u32>,
}

/// Variables that `within` holds, and whatever these are solved to, hold only
/// variables of `within`. What is a row variable of it is a type variable of it, for
/// a tail is looked up as a type first.
pub open spec fn closed_under(s: Sub, within: Vars) -> bool {
    &&& forall|id: u32| #[trigger] within.rows.contains(id) ==> within.types.contains(id)
    &&& forall|id: u32| #[trigger]
        within.types.contains(id) && s.map.dom().contains(id) ==> vars_in(within, s.map[id])
    &&& forall|id: u32| #[trigger]
        within.rows.contains(id) && s.map.dom().contains(id) ==> tail_vars_in(within, s.map[id])
    &&& forall|id: u32| #[trigger]
        within.rows.contains(id) && s.row_map.dom().contains(id) ==> row_vars_in(
            within,
            s.row_map[id],
        )
}

/// 0 for the variables of `within`, 1 for any other.
pub open spec fn membership(within: Vars) -> Ranks {
    Ranks {
        types: |id: u32| if within.types.contains(id) { 0nat } else { 1nat },
        rows: |id: u32| if within.rows.contains(id) { 0nat } else { 1nat },
    }
}

/// Every variable of `t` is one of `within`.
pub open spec fn vars_in(within: Vars, t: Ty) -> bool {
    below(membership(within), t, 1)
}

/// Every variable of a tail is one of `within`.
pub open spec fn tail_vars_in(within: Vars, t: Ty) -> bool {
    tail_below(membership(within), t, 1)
}

pub open spec fn row_vars_in(within: Vars, row: Row) -> bool {
    row_below(membership(within), row, 1)
}

/// `t` does not lead to the type variable `id`: not itself, and not through what its
/// variables and row variables are solved to.
pub open spec fn does_not_lead_to(s: Sub, t: Ty, id: u32) -> bool {
    exists|within: Vars|
        #![trigger closed_under(s, within)]
        closed_under(s, within) && vars_in(within, t) && !within.types.contains(id)
}

/// `t`, as a tail, does not lead to the row variable `id`.
pub open spec fn tail_does_not_lead_to(s: Sub, t: Ty, id: u32) -> bool {
    exists|within: Vars|
        #![trigger closed_under(s, within)]
        closed_under(s, within) && tail_vars_in(within, t) && !within.rows.contains(id)
}

/// Ranks with those outside of `within` raised.
spec fn raised(rank: Ranks, within: Vars, k: nat) -> Ranks {
    Ranks {
        types: |id: u32|
            if within.types.contains(id) {
                (rank.types)(id)
            } else {
                (rank.types)(id) + k
            },
        rows: |id: u32|
            if within.rows.contains(id) {
                (rank.rows)(id)
            } else {
                (rank.rows)(id) + k
            },
    }
}

proof fn rank_within(rank: Ranks, within: Vars, k: nat, t: Ty, n: nat)
    requires
        vars_in(within, t),
        below(rank, t, n),
    ensures
        below(raised(rank, within, k), t, n),
    decreases t, 0nat,
{
    let member = membership(within);
    let new_rank = raised(rank, within, k);
    match t {
        Ty::Fun(a, b, row) => {
            rank_within(rank, within, k, *a, n);
            rank_within(rank, within, k, *b, n);
            rank_row_within(rank, within, k, row, n);
        },
        Ty::Con(name, args) => {
            rank_all_within(rank, within, k, args, n);
        },
        Ty::Record(fields) => {
            assert(fields_below(rank, fields, n));
            assert(fields_below(member, fields, 1));
            assert forall|i: int| 0 <= i < fields.len() implies below(
                new_rank,
                (#[trigger] fields[i]).1,
                n,
            ) by {
                rank_within(rank, within, k, fields[i].1, n);
            }
            assert(fields_below(new_rank, fields, n));
        },
        Ty::Var(id) => {
            assert((member.types)(id) < 1);
        },
        _ => {},
    }
}

proof fn rank_all_within(rank: Ranks, within: Vars, k: nat, ts: Seq<Ty>, n: nat)
    requires
        all_below(membership(within), ts, 1),
        all_below(rank, ts, n),
    ensures
        all_below(raised(rank, within, k), ts, n),
    decreases ts, 0nat,
{
    assert forall|i: int| 0 <= i < ts.len() implies below(
        raised(rank, within, k),
        #[trigger] ts[i],
        n,
    ) by {
        assert(below(rank, ts[i], n));
        rank_within(rank, within, k, ts[i], n);
    }
}

proof fn rank_tail_within(rank: Ranks, within: Vars, k: nat, t: Ty, n: nat)
    requires
        tail_vars_in(within, t),
        tail_below(rank, t, n),
    ensures
        tail_below(raised(rank, within, k), t, n),
    decreases t, 1nat,
{
    if let Ty::Var(id) = t {
        assert((membership(within).rows)(id) < 1);
    } else {
        rank_within(rank, within, k, t, n);
    }
}

proof fn rank_row_within(rank: Ranks, within: Vars, k: nat, row: Row, n: nat)
    requires
        row_vars_in(within, row),
        row_below(rank, row, n),
    ensures
        row_below(raised(rank, within, k), row, n),
    decreases row, 0nat,
{
    let member = membership(within);
    let new_rank = raised(rank, within, k);
    assert forall|i: int| 0 <= i < row.effects.len() implies all_below(
        new_rank,
        (#[trigger] row.effects[i]).args,
        n,
    ) by {
        assert(all_below(rank, row.effects[i].args, n));
        rank_all_within(rank, within, k, row.effects[i].args, n);
    }
    assert forall|i: int| 0 <= i < row.tails.len() implies tail_below(
        new_rank,
        #[trigger] row.tails[i],
        n,
    ) by {
        assert(tail_below(rank, row.tails[i], n));
        assert(tail_below(member, row.tails[i], 1));
        rank_tail_within(rank, within, k, row.tails[i], n);
    }
}

proof fn rank_outside(rank: Ranks, within: Vars, k: nat, t: Ty, n: nat)
    requires
        below(rank, t, n),
    ensures
        below(raised(rank, within, k), t, n + k),
    decreases t, 0nat,
{
    let new_rank = raised(rank, within, k);
    match t {
        Ty::Fun(a, b, row) => {
            rank_outside(rank, within, k, *a, n);
            rank_outside(rank, within, k, *b, n);
            rank_row_outside(rank, within, k, row, n);
        },
        Ty::Con(name, args) => {
            rank_all_outside(rank, within, k, args, n);
        },
        Ty::Record(fields) => {
            assert(fields_below(rank, fields, n));
            assert forall|i: int| 0 <= i < fields.len() implies below(
                new_rank,
                (#[trigger] fields[i]).1,
                n + k,
            ) by {
                rank_outside(rank, within, k, fields[i].1, n);
            }
            assert(fields_below(new_rank, fields, n + k));
        },
        _ => {},
    }
}

proof fn rank_all_outside(rank: Ranks, within: Vars, k: nat, ts: Seq<Ty>, n: nat)
    requires
        all_below(rank, ts, n),
    ensures
        all_below(raised(rank, within, k), ts, n + k),
    decreases ts, 0nat,
{
    assert forall|i: int| 0 <= i < ts.len() implies below(
        raised(rank, within, k),
        #[trigger] ts[i],
        n + k,
    ) by {
        assert(below(rank, ts[i], n));
        rank_outside(rank, within, k, ts[i], n);
    }
}

proof fn rank_tail_outside(rank: Ranks, within: Vars, k: nat, t: Ty, n: nat)
    requires
        tail_below(rank, t, n),
    ensures
        tail_below(raised(rank, within, k), t, n + k),
    decreases t, 1nat,
{
    if !(t is Var) {
        rank_outside(rank, within, k, t, n);
    }
}

proof fn rank_row_outside(rank: Ranks, within: Vars, k: nat, row: Row, n: nat)
    requires
        row_below(rank, row, n),
    ensures
        row_below(raised(rank, within, k), row, n + k),
    decreases row, 0nat,
{
    let new_rank = raised(rank, within, k);
    assert forall|i: int| 0 <= i < row.effects.len() implies all_below(
        new_rank,
        (#[trigger] row.effects[i]).args,
        n + k,
    ) by {
        assert(all_below(rank, row.effects[i].args, n));
        rank_all_outside(rank, within, k, row.effects[i].args, n);
    }
    assert forall|i: int| 0 <= i < row.tails.len() implies tail_below(
        new_rank,
        #[trigger] row.tails[i],
        n + k,
    ) by {
        assert(tail_below(rank, row.tails[i], n));
        rank_tail_outside(rank, within, k, row.tails[i], n);
    }
}

/// Raising the ranks outside of a closed set keeps them ranks.
proof fn raising_keeps_ranked(s: Sub, rank: Ranks, n: nat, within: Vars, k: nat)
    requires
        ranked(s, rank, n),
        closed_under(s, within),
    ensures
        ranked(s, raised(rank, within, k), n + k),
{
    let new_rank = raised(rank, within, k);
    assert forall|id: u32| (#[trigger] (new_rank.types)(id)) <= (new_rank.rows)(id) by {
        assert((rank.types)(id) <= (rank.rows)(id));
        assert(within.rows.contains(id) ==> within.types.contains(id));
    }
    assert forall|id: u32| (#[trigger] (new_rank.rows)(id)) < n + k by {
        assert((rank.rows)(id) < n);
    }
    assert forall|id: u32| #[trigger] s.map.dom().contains(id) implies below(
        new_rank,
        s.map[id],
        (new_rank.types)(id),
    ) && tail_below(new_rank, s.map[id], (new_rank.rows)(id)) by {
        if within.types.contains(id) {
            rank_within(rank, within, k, s.map[id], (rank.types)(id));
        } else {
            rank_outside(rank, within, k, s.map[id], (rank.types)(id));
        }
        if within.rows.contains(id) {
            rank_tail_within(rank, within, k, s.map[id], (rank.rows)(id));
        } else {
            rank_tail_outside(rank, within, k, s.map[id], (rank.rows)(id));
        }
    }
    assert forall|id: u32| #[trigger] s.row_map.dom().contains(id) implies row_below(
        new_rank,
        s.row_map[id],
        (new_rank.rows)(id),
    ) by {
        if within.rows.contains(id) {
            rank_row_within(rank, within, k, s.row_map[id], (rank.rows)(id));
        } else {
            rank_row_outside(rank, within, k, s.row_map[id], (rank.rows)(id));
        }
    }
}

/// Solving a variable to a type that leads back to it neither as a type nor as a
/// tail keeps the substitution free of cycles.
pub proof fn bind_keeps_acyclic(s: Sub, id: u32, t: Ty)
    requires
        acyclic(s),
        does_not_lead_to(s, t, id),
        tail_does_not_lead_to(s, t, id),
    ensures
        acyclic(Sub { map: s.map.insert(id, t), ..s }),
{
    let n = depth(s);
    let rank = choose|rank: Ranks| ranked(s, rank, n);
    let of_type = choose|within: Vars|
        #![trigger closed_under(s, within)]
        closed_under(s, within) && vars_in(within, t) && !within.types.contains(id);
    let of_tail = choose|within: Vars|
        #![trigger closed_under(s, within)]
        closed_under(s, within) && tail_vars_in(within, t) && !within.rows.contains(id);
    let first = raised(rank, of_tail, n);
    let second = raised(first, of_type, 2 * n);
    raising_keeps_ranked(s, rank, n, of_tail, n);
    raising_keeps_ranked(s, first, 2 * n, of_type, 2 * n);
    let after = Sub { map: s.map.insert(id, t), ..s };
    all_rank_below(s, first, 2 * n, t);
    rank_within(first, of_type, 2 * n, t, 2 * n);
    below_more(second, t, 2 * n, (second.types)(id));
    if t is Var {
        assert((rank.rows)(t->Var_0) < n);
        rank_tail_within(rank, of_tail, n, t, n);
        rank_tail_outside(first, of_type, 2 * n, t, n);
        assert(!of_type.rows.contains(id));
        tail_below_more(second, t, n + 2 * n, (second.rows)(id));
    } else {
        assert((second.types)(id) <= (second.rows)(id));
        below_more(second, t, (second.types)(id), (second.rows)(id));
    }
    assert forall|v: u32| #[trigger] after.map.dom().contains(v) implies below(
        second,
        after.map[v],
        (second.types)(v),
    ) && tail_below(second, after.map[v], (second.rows)(v)) by {
        if v != id {
            assert(s.map.dom().contains(v));
        }
    }
    assert(ranked(after, second, 4 * n));
    assert(ranked_within(after, 4 * n));
}

/// Once a variable is solved to a type that does not lead back to it, the two
/// are the same under the substitution.
pub proof fn bind_equates(s: Sub, id: u32, t: Ty)
    requires
        acyclic(s),
        does_not_lead_to(s, t, id),
        tail_does_not_lead_to(s, t, id),
    ensures
        ({
            let after = Sub { map: s.map.insert(id, t), ..s };
            applied(after, Ty::Var(id)) == applied(after, t)
        }),
{
    let after = Sub { map: s.map.insert(id, t), ..s };
    bind_keeps_acyclic(s, id, t);
    apply_unfolds_solved(after, id);
    assert(after.map[id] == t);
}

/// Solving row variables keeps the substitution free of cycles where the rows hold
/// only variables of a closed set that these row variables are not in.
pub proof fn bind_rows_keeps_acyclic(s: Sub, after: Sub, within: Vars)
    requires
        acyclic(s),
        closed_under(s, within),
        after.map == s.map,
        forall|id: u32| #[trigger]
            after.row_map.dom().contains(id) ==> (s.row_map.dom().contains(id) && after.row_map[id]
                == s.row_map[id]) || (!within.rows.contains(id) && row_vars_in(
                within,
                after.row_map[id],
            )),
    ensures
        acyclic(after),
{
    let n = depth(s);
    let rank = choose|rank: Ranks| ranked(s, rank, n);
    let new_rank = raised(rank, within, n);
    raising_keeps_ranked(s, rank, n, within, n);
    assert forall|v: u32| #[trigger] after.row_map.dom().contains(v) implies row_below(
        new_rank,
        after.row_map[v],
        (new_rank.rows)(v),
    ) by {
        let row = after.row_map[v];
        if !(s.row_map.dom().contains(v) && row == s.row_map[v]) {
            row_all_rank_below(s, rank, n, row);
            rank_row_within(rank, within, n, row, n);
            row_below_more(new_rank, row, n, (new_rank.rows)(v));
        }
    }
    assert(ranked(after, new_rank, 2 * n));
    assert(ranked_within(after, 2 * n));
}

/// Whether an effect is named among some entries.
pub open spec fn names_effect(effects: Seq<Entry>, name: Seq<char>) -> bool {
    exists|k: int| 0 <= k < effects.len() && (#[trigger] effects[k]).name == name
}

proof fn names_of_added(effects: Seq<Entry>, name: Seq<char>)
    ensures
        names_effect(add_new(Seq::empty(), effects), name) <==> names_effect(effects, name),
{
    let added = add_new(Seq::empty(), effects);
    if names_effect(added, name) {
        let k = choose|k: int| 0 <= k < added.len() && (#[trigger] added[k]).name == name;
        add_new_contains(Seq::empty(), effects, added[k]);
        assert(added.contains(added[k]));
        let i = choose|i: int| 0 <= i < effects.len() && effects[i] == added[k];
        assert(effects[i].name == name);
    }
    if names_effect(effects, name) {
        let k = choose|k: int| 0 <= k < effects.len() && (#[trigger] effects[k]).name == name;
        add_new_contains(Seq::empty(), effects, effects[k]);
        assert(effects.contains(effects[k]));
        let i = choose|i: int| 0 <= i < added.len() && added[i] == effects[k];
        assert(added[i].name == name);
    }
}

proof fn names_of_both(a: Seq<Entry>, b: Seq<Entry>, name: Seq<char>)
    ensures
        names_effect(a + b, name) <==> names_effect(a, name) || names_effect(b, name),
{
    let both = a + b;
    if names_effect(both, name) {
        let k = choose|k: int| 0 <= k < both.len() && (#[trigger] both[k]).name == name;
        if k < a.len() {
            assert(a[k].name == name);
        } else {
            assert(b[k - a.len()].name == name);
        }
    }
    if names_effect(a, name) {
        let k = choose|k: int| 0 <= k < a.len() && (#[trigger] a[k]).name == name;
        assert(both[k].name == name);
    }
    if names_effect(b, name) {
        let k = choose|k: int| 0 <= k < b.len() && (#[trigger] b[k]).name == name;
        assert(both[a.len() + k].name == name);
    }
}

proof fn names_of_applied(s: Sub, effects: Seq<Entry>, n: nat, name: Seq<char>)
    ensures
        names_effect(apply_entries_n(s, effects, n), name) <==> names_effect(effects, name),
{
    let after = apply_entries_n(s, effects, n);
    if names_effect(after, name) {
        let k = choose|k: int| 0 <= k < after.len() && (#[trigger] after[k]).name == name;
        assert(effects[k].name == name);
    }
    if names_effect(effects, name) {
        let k = choose|k: int| 0 <= k < effects.len() && (#[trigger] effects[k]).name == name;
        assert(after[k].name == name);
    }
}

/// Following a tail that is not solved ends at once.
proof fn unsolved_tail_ends(s: Sub, tail: u32, n: nat)
    requires
        !s.map.dom().contains(tail),
        !s.row_map.dom().contains(tail),
    ensures
        apply_all_n(s, seq![Ty::Var(tail)], n) == seq![Ty::Var(tail)],
        found_effects_n(s, seq![Ty::Var(tail)], n) == Seq::<Entry>::empty(),
        end_tails_n(s, seq![Ty::Var(tail)], n) == seq![Ty::Var(tail)],
{
    let tails = seq![Ty::Var(tail)];
    assert(apply_all_n(s, tails, n) =~= tails);
    unsolved_tails_end(s, tails, 0);
    if n > 0 {
        let m = (n - 1) as nat;
        unsolved_tails_end(s, tails, m);
        no_tails_end(s, m);
    }
    assert(found_effects_n(s, tails, n) =~= Seq::<Entry>::empty());
    assert(end_tails_n(s, tails, n) =~= tails);
}

/// A row whose one tail is not solved keeps the tail and names the same effects.
pub proof fn open_row_stays_open(s: Sub, row: Row, tail: u32, name: Seq<char>)
    requires
        row.tails == seq![Ty::Var(tail)],
        !s.map.dom().contains(tail),
        !s.row_map.dom().contains(tail),
    ensures
        applied_row(s, row).tails == row.tails,
        names_effect(applied_row(s, row).effects, name) <==> names_effect(row.effects, name),
{
    let n = depth(s);
    unsolved_tail_ends(s, tail, n);
    let own = apply_entries_n(s, row.effects, n);
    assert(own + Seq::<Entry>::empty() =~= own);
    names_of_added(own, name);
    names_of_applied(s, row.effects, n, name);
    one_tail_once(row.tails);
}

proof fn one_tail_once(tails: Seq<Ty>)
    requires
        tails.len() == 1,
    ensures
        vars_once(tails) == tails,
{
    assert(tails.drop_last() =~= Seq::empty());
    assert(vars_once(tails.drop_last()) =~= Seq::empty());
    assert(vars_once(tails) =~= tails);
}

/// A row whose one tail is solved to a row with one unsolved tail ends in that tail
/// and names the effects of both.
pub proof fn open_row_is_widened(s: Sub, row: Row, tail: u32, end: u32, name: Seq<char>)
    requires
        acyclic(s),
        row.tails == seq![Ty::Var(tail)],
        !s.map.dom().contains(tail),
        s.row_map.dom().contains(tail),
        s.row_map[tail].tails == seq![Ty::Var(end)],
        !s.map.dom().contains(end),
        !s.row_map.dom().contains(end),
    ensures
        applied_row(s, row).tails == seq![Ty::Var(end)],
        names_effect(applied_row(s, row).effects, name) <==> names_effect(row.effects, name)
            || names_effect(s.row_map[tail].effects, name),
{
    let n = depth(s);
    let rank = choose|rank: Ranks| ranked(s, rank, n);
    assert((rank.rows)(tail) < n);
    let m = (n - 1) as nat;
    let tails = row.tails;
    let ends = seq![Ty::Var(end)];
    let own = apply_entries_n(s, row.effects, n);
    let more = apply_entries_n(s, s.row_map[tail].effects, m);
    unsolved_tail_ends(s, end, m);
    assert(apply_all_n(s, tails, n) =~= tails);
    assert(tails.drop_last() =~= Seq::empty());
    assert(next_effects_n(s, tails.drop_last(), m) =~= Seq::empty());
    assert(next_tails_n(s, tails.drop_last(), m) =~= Seq::empty());
    assert(tails.last() == Ty::Var(tail));
    assert(next_effects_n(s, tails, m) =~= more);
    assert(next_tails_n(s, tails, m) =~= ends);
    assert(found_effects_n(s, tails, n) =~= more);
    assert(unsolved(s, tails) =~= Seq::<Ty>::empty()) by {
        reveal(Seq::filter);
    }
    assert(end_tails_n(s, tails, n) =~= ends);
    one_tail_once(ends);
    names_of_added(own + more, name);
    names_of_both(own, more, name);
    names_of_applied(s, row.effects, n, name);
    names_of_applied(s, s.row_map[tail].effects, m, name);
}

/// No row in `t` has tails.
pub open spec fn is_tailless(t: Ty) -> bool
    decreases t,
{
    match t {
        Ty::Fun(a, b, row) => is_tailless(*a) && is_tailless(*b) && is_tailless_row(row),
        Ty::Con(name, args) => are_tailless(args),
        Ty::Record(fields) => are_tailless_fields(fields),
        _ => true,
    }
}

pub open spec fn are_tailless(ts: Seq<Ty>) -> bool
    decreases ts,
{
    forall|i: int| 0 <= i < ts.len() ==> is_tailless(#[trigger] ts[i])
}

pub open spec fn are_tailless_fields(fields: Seq<(Seq<char>, Ty)>) -> bool
    decreases fields,
{
    forall|i: int| 0 <= i < fields.len() ==> is_tailless((#[trigger] fields[i]).1)
}

/// Neither the row nor one in its arguments has tails.
pub open spec fn is_tailless_row(row: Row) -> bool
    decreases row,
{
    &&& row.tails.len() == 0
    &&& forall|i: int| 0 <= i < row.effects.len() ==> are_tailless((#[trigger] row.effects[i]).args)
}

/// No row in what variables are solved to has tails.
pub open spec fn holds_no_tails(s: Sub) -> bool {
    &&& forall|id: u32| #[trigger] s.map.dom().contains(id) ==> is_tailless(s.map[id])
    &&& forall|id: u32| #[trigger] s.row_map.dom().contains(id) ==> is_tailless_row(s.row_map[id])
}

/// More steps than a type needs show no more of what occurs in it.
proof fn occurs_stable(
    s: Sub,
    rank: Ranks,
    k: nat,
    id: u32,
    t: Ty,
    n: nat,
    m: nat,
)
    requires
        ranked(s, rank, k),
        below(rank, t, n),
        below(rank, t, m),
    ensures
        occurs_n(s, id, t, n) == occurs_n(s, id, t, m),
    decreases n, t,
{
    match t {
        Ty::Var(other) => {
            if s.map.dom().contains(other) {
                below_more(rank, s.map[other], (rank.types)(other), (n - 1) as nat);
                below_more(rank, s.map[other], (rank.types)(other), (m - 1) as nat);
                occurs_stable(s, rank, k, id, s.map[other], (n - 1) as nat, (m - 1) as nat);
            }
        },
        Ty::Fun(a, b, row) => {
            assert(row_below(rank, row, n) && row_below(rank, row, m));
            occurs_stable(s, rank, k, id, *a, n, m);
            occurs_stable(s, rank, k, id, *b, n, m);
            occurs_in_entries_stable(s, rank, k, id, row.effects, n, m);
        },
        Ty::Con(name, args) => {
            occurs_in_any_stable(s, rank, k, id, args, n, m);
        },
        Ty::Record(fields) => {
            assert(fields_below(rank, fields, n) && fields_below(rank, fields, m));
            assert forall|i: int| 0 <= i < fields.len() implies occurs_n(
                s,
                id,
                (#[trigger] fields[i]).1,
                n,
            ) == occurs_n(s, id, fields[i].1, m) by {
                occurs_stable(s, rank, k, id, fields[i].1, n, m);
            }
            assert(occurs_in_fields_n(s, id, fields, n) == occurs_in_fields_n(s, id, fields, m));
        },
        _ => {},
    }
}

proof fn occurs_in_any_stable(
    s: Sub,
    rank: Ranks,
    k: nat,
    id: u32,
    ts: Seq<Ty>,
    n: nat,
    m: nat,
)
    requires
        ranked(s, rank, k),
        all_below(rank, ts, n),
        all_below(rank, ts, m),
    ensures
        occurs_in_any_n(s, id, ts, n) == occurs_in_any_n(s, id, ts, m),
    decreases n, ts,
{
    assert forall|i: int| 0 <= i < ts.len() implies occurs_n(s, id, #[trigger] ts[i], n)
        == occurs_n(s, id, ts[i], m) by {
        assert(below(rank, ts[i], n) && below(rank, ts[i], m));
        occurs_stable(s, rank, k, id, ts[i], n, m);
    }
}

proof fn occurs_in_entries_stable(
    s: Sub,
    rank: Ranks,
    k: nat,
    id: u32,
    effects: Seq<Entry>,
    n: nat,
    m: nat,
)
    requires
        ranked(s, rank, k),
        entries_below(rank, effects, n),
        entries_below(rank, effects, m),
    ensures
        occurs_in_entries_n(s, id, effects, n) == occurs_in_entries_n(s, id, effects, m),
    decreases n, effects,
{
    assert forall|i: int| 0 <= i < effects.len() implies occurs_in_any_n(
        s,
        id,
        (#[trigger] effects[i]).args,
        n,
    ) == occurs_in_any_n(s, id, effects[i].args, m) by {
        assert(all_below(rank, effects[i].args, n) && all_below(rank, effects[i].args, m));
        occurs_in_any_stable(s, rank, k, id, effects[i].args, n, m);
    }
}

/// The variables that do not lead to `id` through what type variables are solved to.
spec fn not_leading_to(s: Sub, id: u32) -> Set<u32> {
    Set::new(|v: u32| !occurs_in(s, id, Ty::Var(v)))
}

/// A type in which `id` is not met holds only variables that do not lead to it, and
/// where it has no tails no row variables.
proof fn not_met_within(s: Sub, rank: Ranks, id: u32, t: Ty, n: nat)
    requires
        ranked(s, rank, depth(s)),
        below(rank, t, n),
        is_tailless(t),
        !occurs_n(s, id, t, n),
    ensures
        vars_in(Vars { types: not_leading_to(s, id), rows: Set::empty() }, t),
    decreases t,
{
    let within = Vars { types: not_leading_to(s, id), rows: Set::empty() };
    let member = membership(within);
    match t {
        Ty::Var(v) => {
            assert((rank.types)(v) <= (rank.rows)(v));
            assert((rank.rows)(v) < depth(s));
            occurs_stable(s, rank, depth(s), id, t, n, depth(s));
        },
        Ty::Fun(a, b, row) => {
            not_met_within(s, rank, id, *a, n);
            not_met_within(s, rank, id, *b, n);
            assert(row_below(rank, row, n));
            assert(is_tailless_row(row));
            assert(!occurs_in_entries_n(s, id, row.effects, n));
            assert forall|i: int| 0 <= i < row.effects.len() implies all_below(
                member,
                (#[trigger] row.effects[i]).args,
                1,
            ) by {
                assert(all_below(rank, row.effects[i].args, n));
                assert(are_tailless(row.effects[i].args));
                assert(!occurs_in_any_n(s, id, row.effects[i].args, n));
                not_met_within_all(s, rank, id, row.effects[i].args, n);
            }
            assert(row_below(member, row, 1));
        },
        Ty::Con(name, args) => {
            not_met_within_all(s, rank, id, args, n);
        },
        Ty::Record(fields) => {
            assert(fields_below(rank, fields, n));
            assert(are_tailless_fields(fields));
            assert(!occurs_in_fields_n(s, id, fields, n));
            assert forall|i: int| 0 <= i < fields.len() implies below(
                member,
                (#[trigger] fields[i]).1,
                1,
            ) by {
                assert(is_tailless(fields[i].1));
                assert(!occurs_n(s, id, fields[i].1, n));
                not_met_within(s, rank, id, fields[i].1, n);
            }
            assert(fields_below(member, fields, 1));
        },
        _ => {},
    }
}

proof fn not_met_within_all(s: Sub, rank: Ranks, id: u32, ts: Seq<Ty>, n: nat)
    requires
        ranked(s, rank, depth(s)),
        all_below(rank, ts, n),
        are_tailless(ts),
        !occurs_in_any_n(s, id, ts, n),
    ensures
        all_below(
            membership(Vars { types: not_leading_to(s, id), rows: Set::empty() }),
            ts,
            1,
        ),
    decreases ts,
{
    assert forall|i: int| 0 <= i < ts.len() implies below(
        membership(Vars { types: not_leading_to(s, id), rows: Set::empty() }),
        #[trigger] ts[i],
        1,
    ) by {
        assert(below(rank, ts[i], n));
        assert(is_tailless(ts[i]));
        assert(!occurs_n(s, id, ts[i], n));
        not_met_within(s, rank, id, ts[i], n);
    }
}

/// A type without tails holds no row variables.
proof fn tailless_within(rows: Set<u32>, t: Ty)
    requires
        is_tailless(t),
    ensures
        vars_in(Vars { types: Set::full(), rows }, t),
    decreases t,
{
    let member = membership(Vars { types: Set::full(), rows });
    match t {
        Ty::Fun(a, b, row) => {
            tailless_within(rows, *a);
            tailless_within(rows, *b);
            tailless_row_within(rows, row);
        },
        Ty::Con(name, args) => {
            tailless_all_within(rows, args);
        },
        Ty::Record(fields) => {
            assert(are_tailless_fields(fields));
            assert forall|i: int| 0 <= i < fields.len() implies below(
                member,
                (#[trigger] fields[i]).1,
                1,
            ) by {
                tailless_within(rows, fields[i].1);
            }
            assert(fields_below(member, fields, 1));
        },
        _ => {},
    }
}

proof fn tailless_all_within(rows: Set<u32>, ts: Seq<Ty>)
    requires
        are_tailless(ts),
    ensures
        all_below(membership(Vars { types: Set::full(), rows }), ts, 1),
    decreases ts,
{
    assert forall|i: int| 0 <= i < ts.len() implies below(
        membership(Vars { types: Set::full(), rows }),
        #[trigger] ts[i],
        1,
    ) by {
        tailless_within(rows, ts[i]);
    }
}

proof fn tailless_row_within(rows: Set<u32>, row: Row)
    requires
        is_tailless_row(row),
    ensures
        row_vars_in(Vars { types: Set::full(), rows }, row),
    decreases row,
{
    let member = membership(Vars { types: Set::full(), rows });
    assert forall|i: int| 0 <= i < row.effects.len() implies all_below(
        member,
        (#[trigger] row.effects[i]).args,
        1,
    ) by {
        assert(are_tailless(row.effects[i].args));
        tailless_all_within(rows, row.effects[i].args);
    }
}

/// The occurs check prevents infinite types. Where no row has tails, a type that a
/// variable may be bound to does not lead back to it, the substitution stays free of
/// cycles, and the variable and the type are the same under it.
pub proof fn occurs_check_keeps_acyclic(s: Sub, id: u32, t: Ty)
    requires
        acyclic(s),
        holds_no_tails(s),
        is_tailless(t),
        t != Ty::Var(id),
        bound(s, id, t) is Ok,
    ensures
        does_not_lead_to(s, t, id),
        tail_does_not_lead_to(s, t, id),
        acyclic(bound(s, id, t)->Ok_0),
        holds_no_tails(bound(s, id, t)->Ok_0),
        applied(bound(s, id, t)->Ok_0, Ty::Var(id)) == applied(bound(s, id, t)->Ok_0, t),
{
    let n = depth(s);
    let rank = choose|rank: Ranks| ranked(s, rank, n);
    let apart = not_leading_to(s, id);
    let within = Vars { types: apart, rows: Set::empty() };
    assert forall|v: u32| #[trigger]
        within.types.contains(v) && s.map.dom().contains(v) implies vars_in(within, s.map[v]) by {
        solved_apart(s, rank, id, v);
        not_met_within(s, rank, id, s.map[v], (n - 1) as nat);
    }
    assert(closed_under(s, within));
    all_rank_below(s, rank, n, t);
    not_met_within(s, rank, id, t, n);
    assert(vars_in(within, t));
    assert(!within.types.contains(id));
    if t is Var {
        let by_rows = Vars { types: Set::full(), rows: apart };
        assert forall|v: u32| #[trigger]
            by_rows.types.contains(v) && s.map.dom().contains(v) implies vars_in(
            by_rows,
            s.map[v],
        ) by {
            tailless_within(apart, s.map[v]);
        }
        assert forall|v: u32| #[trigger]
            by_rows.rows.contains(v) && s.map.dom().contains(v) implies tail_vars_in(
            by_rows,
            s.map[v],
        ) by {
            tailless_within(apart, s.map[v]);
            if let Ty::Var(w) = s.map[v] {
                solved_apart(s, rank, id, v);
                not_met_within(s, rank, id, s.map[v], (n - 1) as nat);
                assert((membership(within).types)(w) < 1);
            }
        }
        assert forall|v: u32| #[trigger]
            by_rows.rows.contains(v) && s.row_map.dom().contains(v) implies row_vars_in(
            by_rows,
            s.row_map[v],
        ) by {
            tailless_row_within(apart, s.row_map[v]);
        }
        assert(closed_under(s, by_rows));
        assert((membership(within).types)(t->Var_0) < 1);
        assert(tail_vars_in(by_rows, t));
        assert(!by_rows.rows.contains(id));
    } else {
        assert(tail_vars_in(within, t));
        assert(!within.rows.contains(id));
    }
    bind_keeps_acyclic(s, id, t);
    bind_equates(s, id, t);
    let after = bound(s, id, t)->Ok_0;
    assert forall|v: u32| #[trigger] after.map.dom().contains(v) implies is_tailless(
        after.map[v],
    ) by {
        if v != id {
            assert(s.map.dom().contains(v));
        }
    }
}

/// What a variable is solved to leads to `id` only where the variable does.
proof fn solved_apart(s: Sub, rank: Ranks, id: u32, v: u32)
    requires
        ranked(s, rank, depth(s)),
        s.map.dom().contains(v),
        !occurs_in(s, id, Ty::Var(v)),
    ensures
        depth(s) > 0,
        below(rank, s.map[v], (depth(s) - 1) as nat),
        !occurs_n(s, id, s.map[v], (depth(s) - 1) as nat),
{
    assert((rank.types)(v) <= (rank.rows)(v));
    assert((rank.rows)(v) < depth(s));
    below_more(rank, s.map[v], (rank.types)(v), (depth(s) - 1) as nat);
}

/// How many variables are solved never falls: solving a variable that was not
/// solved makes it one more, and nothing else changes it, neither a binding that is
/// refused nor one of a row variable.
pub proof fn solving_grows(s: Sub, id: u32, t: Ty, row: Row)
    requires
        s.map.dom().finite(),
    ensures
        match bound(s, id, t) {
            Ok(after) => after.map.dom().finite() && after.map.dom().len() == s.map.dom().len() + (
            if t != Ty::Var(id) && !s.map.dom().contains(id) {
                1nat
            } else {
                0nat
            }),
            Err(_) => true,
        },
        match row_bound(s, id, row) {
            Ok(after) => after.map == s.map,
            Err(_) => true,
        },
{
    assert(s.map.insert(id, t).dom() =~= s.map.dom().insert(id));
}

} // verus!
