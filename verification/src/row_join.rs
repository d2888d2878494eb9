//! Joining effect rows and the types of branches.
//!
//! A join has two halves. The first says which types have to be unified, and the
//! second widens the rows once that is done.

use vstd::prelude::*;
use crate::diagnostics::{an_error_at, Diag, Diagnostic};
use crate::seqs::{filter_contains, push_contains};
use crate::subst::{
    acyclic, all_below, applied, applied_row, bind_rows_keeps_acyclic, closed_under, membership,
    names_effect, open_row_is_widened, open_row_stays_open, row_below, row_bound, row_vars_in, Sub,
    Substitution, Vars,
};
use crate::table::{at_key, distinct_keys, put, put_then_get, Table};
use crate::token::Span;
use crate::type_ops::var_ids;
use crate::types::{EffectEntry, EffectRow, Entry, Row, Ty, Type, group_type_models};
use crate::values::{append_values, contains_value, outcome, push_value, Dup};

verus! {

/// The first entry of a name.
pub open spec fn entry_named(effects: Seq<Entry>, name: Seq<char>) -> Option<Entry>
    decreases effects.len(),
{
    if effects.len() == 0 {
        None
    } else {
        match entry_named(effects.drop_last(), name) {
            Some(e) => Some(e),
            None => if effects.last().name == name {
                Some(effects.last())
            } else {
                None
            },
        }
    }
}

proof fn entry_named_stays(effects: Seq<Entry>, name: Seq<char>, n: int)
    requires
        0 <= n <= effects.len(),
        entry_named(effects.take(n), name) is Some,
    ensures
        entry_named(effects, name) == entry_named(effects.take(n), name),
    decreases effects.len(),
{
    if n < effects.len() {
        assert(effects.drop_last().take(n) =~= effects.take(n));
        entry_named_stays(effects.drop_last(), name, n);
    } else {
        assert(effects.take(n) =~= effects);
    }
}

/// The pairs of two lists, as far as both go.
pub open spec fn pairs_of(a: Seq<Ty>, b: Seq<Ty>) -> Seq<(Ty, Ty)> {
    Seq::new(
        if a.len() <= b.len() {
            a.len()
        } else {
            b.len()
        },
        |i: int| (a[i], b[i]),
    )
}

/// A union of entries, and the types that have to be unified for it.
pub type Union = (Seq<Entry>, Seq<(Ty, Ty)>);

/// A union with one more entry: an effect that it names already must have the same
/// arguments.
pub open spec fn with_entry(u: Union, e: Entry) -> Union {
    match entry_named(u.0, e.name) {
        Some(existing) => (u.0, u.1 + pairs_of(existing.args, e.args)),
        None => (u.0.push(e), u.1),
    }
}

pub open spec fn with_entries(acc: Union, items: Seq<Entry>) -> Union
    decreases items.len(),
{
    if items.len() == 0 {
        acc
    } else {
        with_entry(with_entries(acc, items.drop_last()), items.last())
    }
}

pub open spec fn with_row(u: Union, row: Row) -> Union {
    with_entries(u, row.effects)
}

/// The union of the entries of some rows.
pub open spec fn union_of(acc: Union, items: Seq<Row>) -> Union
    decreases items.len(),
{
    if items.len() == 0 {
        acc
    } else {
        with_row(union_of(acc, items.drop_last()), items.last())
    }
}

/// Rows with solved variables applied.
pub open spec fn applied_rows(sub: Sub, rows: Seq<Row>) -> Seq<Row> {
    rows.map_values(|r: Row| applied_row(sub, r))
}

/// What is to be done to join some rows.
pub struct RowJoin {
    /// The rows, solved variables applied.
    pub rows: Vec<EffectRow>,
    pub union: Vec<EffectEntry>,
    /// The types that have to be unified first.
    pub pairs: Vec<(Type, Type)>,
}

#[verifier::ext_equal]
pub struct RowJoinModel {
    pub rows: Seq<Row>,
    pub union: Seq<Entry>,
    pub pairs: Seq<(Ty, Ty)>,
}

impl DeepView for RowJoin {
    type V = RowJoinModel;

    open spec fn deep_view(&self) -> RowJoinModel {
        RowJoinModel {
            rows: self.rows.deep_view(),
            union: self.union.deep_view(),
            pairs: self.pairs.deep_view(),
        }
    }
}

/// What is to be done to join some rows.
pub open spec fn row_join(sub: Sub, rows: Seq<Row>) -> RowJoinModel {
    let ready = applied_rows(sub, rows);
    let u = union_of((Seq::empty(), Seq::empty()), ready);
    RowJoinModel { rows: ready, union: u.0, pairs: u.1 }
}

/// The first entry that names the effect of another.
pub fn find_entry<'a>(
    effects: &'a Vec<EffectEntry>,
    e: &EffectEntry,
) -> (r: Option<&'a EffectEntry>)
    ensures
        r.deep_view() == entry_named(effects.deep_view(), e@.name),
{
    broadcast use group_type_models;

    let ghost all = effects.deep_view();
    let mut i: usize = 0;
    assert(all.take(0) =~= Seq::empty());
    while i < effects.len()
        invariant
            i <= effects.len(),
            all == effects.deep_view(),
            entry_named(all.take(i as int), e@.name) is None,
        decreases effects.len() - i,
    {
        proof {
            assert(all.take(i + 1).drop_last() =~= all.take(i as int));
            assert(all.take(i + 1).last() == effects@[i as int]@);
        }
        if effects[i].matches(e) {
            proof {
                entry_named_stays(all, e@.name, i + 1);
            }
            return Some(&effects[i]);
        }
        i = i + 1;
    }
    assert(all.take(i as int) =~= all);
    None
}

fn add_pairs(pairs: &mut Vec<(Type, Type)>, a: &Vec<Type>, b: &Vec<Type>)
    ensures
        final(pairs).deep_view() == old(pairs).deep_view() + pairs_of(
            a.deep_view(),
            b.deep_view(),
        ),
{
    let ghost p0 = pairs.deep_view();
    let ghost more = pairs_of(a.deep_view(), b.deep_view());
    let mut i: usize = 0;
    assert(p0 + more.take(0) =~= p0);
    while i < a.len() && i < b.len()
        invariant
            i <= a.len(),
            i <= b.len(),
            more == pairs_of(a.deep_view(), b.deep_view()),
            pairs.deep_view() == p0 + more.take(i as int),
        decreases a.len() - i,
    {
        let pair = (a[i].dup(), b[i].dup());
        proof {
            assert(more[i as int] == pair.deep_view());
            assert(p0 + more.take(i + 1) =~= (p0 + more.take(i as int)).push(more[i as int]));
        }
        push_value(pairs, pair);
        i = i + 1;
    }
    assert(more.take(i as int) =~= more);
}

fn add_entries(
    union: &mut Vec<EffectEntry>,
    pairs: &mut Vec<(Type, Type)>,
    effects: &Vec<EffectEntry>,
)
    ensures
        (final(union).deep_view(), final(pairs).deep_view()) == with_entries(
            (old(union).deep_view(), old(pairs).deep_view()),
            effects.deep_view(),
        ),
{
    let ghost u0 = (union.deep_view(), pairs.deep_view());
    let ghost all = effects.deep_view();
    let mut i: usize = 0;
    assert(all.take(0) =~= Seq::empty());
    while i < effects.len()
        invariant
            i <= effects.len(),
            all == effects.deep_view(),
            (union.deep_view(), pairs.deep_view()) == with_entries(u0, all.take(i as int)),
        decreases effects.len() - i,
    {
        broadcast use group_type_models;

        let e = &effects[i];
        proof {
            assert(all.take(i + 1).drop_last() =~= all.take(i as int));
            assert(all.take(i + 1).last() == e@);
            crate::types::entry_model_parts(*e);
        }
        match find_entry(union, e) {
            Some(existing) => {
                proof {
                    crate::types::entry_model_parts(*existing);
                }
                add_pairs(pairs, &existing.args, &e.args);
            },
            None => {
                push_value(union, e.dup());
            },
        }
        i = i + 1;
    }
    assert(all.take(i as int) =~= all);
}

/// The first half of joining rows: what has to be unified, and the union of their
/// entries.
pub fn plan_row_join(sub: &Substitution, rows: &Vec<EffectRow>) -> (r: RowJoin)
    requires
        acyclic(sub@),
    ensures
        r.deep_view() == row_join(sub@, rows.deep_view()),
{
    let mut ready: Vec<EffectRow> = Vec::new();
    let mut i: usize = 0;
    while i < rows.len()
        invariant
            i <= rows.len(),
            ready.len() == i,
            acyclic(sub@),
            forall|j: int|
                0 <= j < i ==> #[trigger] ready.deep_view()[j] == applied_row(
                    sub@,
                    rows.deep_view()[j],
                ),
        decreases rows.len() - i,
    {
        push_value(&mut ready, sub.apply_effect_row(&rows[i]));
        i = i + 1;
    }
    let ghost all = applied_rows(sub@, rows.deep_view());
    assert(ready.deep_view() =~= all);
    let mut union: Vec<EffectEntry> = Vec::new();
    let mut pairs: Vec<(Type, Type)> = Vec::new();
    let ghost none: Union = (Seq::empty(), Seq::empty());
    let mut i: usize = 0;
    assert(all.take(0) =~= Seq::empty());
    assert(union.deep_view() =~= Seq::empty());
    assert(pairs.deep_view() =~= Seq::empty());
    while i < ready.len()
        invariant
            i <= ready.len(),
            all == ready.deep_view(),
            none == (Seq::<Entry>::empty(), Seq::<(Ty, Ty)>::empty()),
            (union.deep_view(), pairs.deep_view()) == union_of(none, all.take(i as int)),
        decreases ready.len() - i,
    {
        broadcast use group_type_models;

        proof {
            assert(all.take(i + 1).drop_last() =~= all.take(i as int));
            assert(all.take(i + 1).last() == ready@[i as int]@);
            crate::types::row_model_parts(ready@[i as int]);
        }
        add_entries(&mut union, &mut pairs, &ready[i].effects);
        i = i + 1;
    }
    assert(all.take(i as int) =~= all);
    RowJoin { rows: ready, union, pairs }
}

/// The first tail of a row that is a variable.
pub open spec fn first_tail(row: Row) -> Option<u32> {
    let ids = var_ids(row.tails);
    if ids.len() == 0 {
        None
    } else {
        Some(ids[0])
    }
}

/// Whether a row with a tail as its first lacks an effect.
pub open spec fn lacked_behind(rows: Seq<Row>, tail: u32, name: Seq<char>) -> bool {
    exists|i: int|
        0 <= i < rows.len() && first_tail(#[trigger] rows[i]) == Some(tail) && entry_named(
            rows[i].effects,
            name,
        ) is None
}

/// What a tail is widened to: the entries of the union that a row with it as its
/// first tail lacks, and the shared tail. The further tails of a row bring nothing.
pub open spec fn widened_tail(rows: Seq<Row>, union: Seq<Entry>, shared: u32, tail: u32) -> Row {
    Row {
        effects: union.filter(|e: Entry| lacked_behind(rows, tail, e.name)),
        tails: seq![Ty::Var(shared)],
    }
}

/// The variables among the tails of some rows, as often as they occur.
pub open spec fn all_tails(rows: Seq<Row>) -> Seq<u32>
    decreases rows.len(),
{
    if rows.len() == 0 {
        Seq::empty()
    } else {
        all_tails(rows.drop_last()) + var_ids(rows.last().tails)
    }
}

/// The solved variables, and the tails that were bound.
pub type Widening = (Sub, Seq<u32>);

/// A tail widened, unless it was before.
pub open spec fn with_tail(
    j: RowJoinModel,
    shared: u32,
    span: Span,
    w: Widening,
    tail: u32,
) -> (Widening, Result<(), Diag>) {
    if w.1.contains(tail) {
        (w, Ok(()))
    } else {
        match row_bound(w.0, tail, widened_tail(j.rows, j.union, shared, tail)) {
            Ok(sub) => ((sub, w.1.push(tail)), Ok(())),
            Err(message) => (w, Err(an_error_at(span, message))),
        }
    }
}

/// Tails widened one after the other, up to the first failure.
pub open spec fn with_tails(
    j: RowJoinModel,
    shared: u32,
    span: Span,
    acc: Widening,
    items: Seq<u32>,
) -> (Widening, Result<(), Diag>)
    decreases items.len(),
{
    if items.len() == 0 {
        (acc, Ok(()))
    } else {
        let before = with_tails(j, shared, span, acc, items.drop_last());
        match before.1 {
            Ok(_) => with_tail(j, shared, span, before.0, items.last()),
            Err(_) => before,
        }
    }
}

/// The first failure is the outcome.
proof fn with_tails_stops(
    j: RowJoinModel,
    shared: u32,
    span: Span,
    acc: Widening,
    items: Seq<u32>,
    n: int,
)
    requires
        0 <= n <= items.len(),
        with_tails(j, shared, span, acc, items.take(n)).1 is Err,
    ensures
        with_tails(j, shared, span, acc, items) == with_tails(
            j,
            shared,
            span,
            acc,
            items.take(n),
        ),
    decreases items.len(),
{
    if n < items.len() {
        assert(items.drop_last().take(n) =~= items.take(n));
        with_tails_stops(j, shared, span, acc, items.drop_last(), n);
    } else {
        assert(items.take(n) =~= items);
    }
}

/// Whether one of some rows is open.
pub open spec fn any_open(rows: Seq<Row>) -> bool {
    exists|i: int| 0 <= i < rows.len() && (#[trigger] rows[i]).tails.len() > 0
}

/// The solved variables with the open rows widened, as far as that went, and the
/// joined row. A join of closed rows is closed; otherwise its tail is `shared`.
pub open spec fn joined_row(sub: Sub, j: RowJoinModel, shared: u32, span: Span) -> (
    Sub,
    Result<Row, Diag>,
) {
    if any_open(j.rows) {
        let widened = with_tails(j, shared, span, (sub, Seq::empty()), all_tails(j.rows));
        match widened.1 {
            Ok(_) => (
                widened.0.0,
                Ok(Row { effects: j.union, tails: seq![Ty::Var(shared)] }),
            ),
            Err(e) => (widened.0.0, Err(e)),
        }
    } else {
        (sub, Ok(Row { effects: j.union, tails: Seq::empty() }))
    }
}

/// Whether a row with a tail as its first lacks the effect of an entry.
fn is_lacked_behind(rows: &Vec<EffectRow>, tail: u32, e: &EffectEntry) -> (r: bool)
    ensures
        r == lacked_behind(rows.deep_view(), tail, e@.name),
{
    broadcast use group_type_models;

    let ghost all = rows.deep_view();
    let mut i: usize = 0;
    while i < rows.len()
        invariant
            i <= rows.len(),
            all == rows.deep_view(),
            forall|j: int|
                0 <= j < i ==> !(first_tail(#[trigger] all[j]) == Some(tail) && entry_named(
                    all[j].effects,
                    e@.name,
                ) is None),
        decreases rows.len() - i,
    {
        proof {
            assert(all[i as int] == rows@[i as int]@);
            crate::types::row_model_parts(rows@[i as int]);
        }
        let ids = rows[i].tail_var_ids();
        if ids.len() > 0 && ids[0] == tail && find_entry(&rows[i].effects, e).is_none() {
            assert(first_tail(all[i as int]) == Some(tail));
            return true;
        }
        i = i + 1;
    }
    false
}

/// The entries that a tail is widened by.
fn entries_behind(rows: &Vec<EffectRow>, union: &Vec<EffectEntry>, tail: u32) -> (r: Vec<
    EffectEntry,
>)
    ensures
        r.deep_view() == union.deep_view().filter(
            |e: Entry| lacked_behind(rows.deep_view(), tail, e.name),
        ),
{
    let ghost all = union.deep_view();
    let ghost lacked = |e: Entry| lacked_behind(rows.deep_view(), tail, e.name);
    let mut out: Vec<EffectEntry> = Vec::new();
    let mut i: usize = 0;
    proof {
        reveal(Seq::filter);
        assert(all.take(0) =~= Seq::empty());
        assert(out.deep_view() =~= Seq::empty());
    }
    while i < union.len()
        invariant
            i <= union.len(),
            all == union.deep_view(),
            lacked == (|e: Entry| lacked_behind(rows.deep_view(), tail, e.name)),
            out.deep_view() == all.take(i as int).filter(lacked),
        decreases union.len() - i,
    {
        proof {
            reveal(Seq::filter);
            assert(all.take(i + 1).drop_last() =~= all.take(i as int));
            assert(all.take(i + 1).last() == union@[i as int]@);
        }
        if is_lacked_behind(rows, tail, &union[i]) {
            push_value(&mut out, union[i].dup());
        }
        i = i + 1;
    }
    assert(all.take(i as int) =~= all);
    out
}

fn shared_row(effects: Vec<EffectEntry>, shared: u32) -> (r: EffectRow)
    ensures
        r@ == (Row { effects: effects.deep_view(), tails: seq![Ty::Var(shared)] }),
{
    broadcast use group_type_models;

    let mut tails: Vec<Type> = Vec::new();
    push_value(&mut tails, Type::Var(shared));
    let row = EffectRow { effects, tails };
    proof {
        crate::types::row_model_parts(row);
        assert(tails.deep_view() =~= seq![Ty::Var(shared)]);
    }
    row
}

fn bind_tail(
    join: &RowJoin,
    shared: u32,
    span: Span,
    sub: &mut Substitution,
    bound: &mut Vec<u32>,
    tail: u32,
) -> (r: Result<(), Diagnostic>)
    ensures
        with_tail(
            join.deep_view(),
            shared,
            span,
            (old(sub)@, old(bound).deep_view()),
            tail,
        ) == ((final(sub)@, final(bound).deep_view()), outcome(r)),
{
    if contains_value(bound, &tail) {
        return Ok(());
    }
    let row = shared_row(entries_behind(&join.rows, &join.union, tail), shared);
    match sub.bind_row(tail, row) {
        Err(e) => Err(e.with_span(span)),
        Ok(_) => {
            push_value(bound, tail);
            Ok(())
        },
    }
}

/// The variables among the tails of some rows.
fn tails_of_all(rows: &Vec<EffectRow>) -> (r: Vec<u32>)
    ensures
        r.deep_view() == all_tails(rows.deep_view()),
{
    let ghost all = rows.deep_view();
    let mut out: Vec<u32> = Vec::new();
    let mut i: usize = 0;
    assert(all.take(0) =~= Seq::empty());
    assert(out.deep_view() =~= Seq::empty());
    while i < rows.len()
        invariant
            i <= rows.len(),
            all == rows.deep_view(),
            out.deep_view() == all_tails(all.take(i as int)),
        decreases rows.len() - i,
    {
        proof {
            assert(all.take(i + 1).drop_last() =~= all.take(i as int));
            assert(all.take(i + 1).last() == rows@[i as int]@);
        }
        let mut ids = rows[i].tail_var_ids();
        assert(ids.deep_view() =~= ids@);
        append_values(&mut out, &mut ids);
        i = i + 1;
    }
    assert(all.take(i as int) =~= all);
    out
}

fn has_open_row(rows: &Vec<EffectRow>) -> (r: bool)
    ensures
        r == any_open(rows.deep_view()),
{
    let mut i: usize = 0;
    while i < rows.len()
        invariant
            i <= rows.len(),
            forall|j: int| 0 <= j < i ==> (#[trigger] rows.deep_view()[j]).tails.len() == 0,
        decreases rows.len() - i,
    {
        if rows[i].is_open() {
            assert(rows.deep_view()[i as int].tails.len() > 0);
            return true;
        }
        i = i + 1;
    }
    false
}

/// The second half of joining rows: the joined row. Each open row is widened to
/// it. `shared` is a variable that occurs nowhere else.
pub fn join_effect_rows(
    sub: &mut Substitution,
    join: &RowJoin,
    shared: u32,
    span: Span,
) -> (r: Result<EffectRow, Diagnostic>)
    ensures
        (final(sub)@, outcome(r)) == joined_row(old(sub)@, join.deep_view(), shared, span),
{
    broadcast use group_type_models;

    if !has_open_row(&join.rows) {
        let tails: Vec<Type> = Vec::new();
        let row = EffectRow { effects: join.union.dup(), tails };
        proof {
            crate::types::row_model_parts(row);
            assert(tails.deep_view() =~= Seq::empty());
        }
        return Ok(row);
    }
    let mut bound: Vec<u32> = Vec::new();
    assert(bound.deep_view() =~= Seq::empty());
    let ids = tails_of_all(&join.rows);
    let ghost j = join.deep_view();
    let ghost w0 = (sub@, Seq::<u32>::empty());
    let ghost all = ids.deep_view();
    let mut i: usize = 0;
    assert(all.take(0) =~= Seq::empty());
    while i < ids.len()
        invariant
            i <= ids.len(),
            w0 == (old(sub)@, Seq::<u32>::empty()),
            j == join.deep_view(),
            all == ids.deep_view(),
            all == all_tails(j.rows),
            any_open(j.rows),
            with_tails(j, shared, span, w0, all.take(i as int)) == (
                (sub@, bound.deep_view()),
                Ok::<(), Diag>(()),
            ),
        decreases ids.len() - i,
    {
        proof {
            assert(all.take(i + 1).drop_last() =~= all.take(i as int));
            assert(all.take(i + 1).last() == ids@[i as int]);
        }
        if let Err(e) = bind_tail(join, shared, span, sub, &mut bound, ids[i]) {
            proof {
                with_tails_stops(j, shared, span, w0, all, i + 1);
            }
            return Err(e);
        }
        i = i + 1;
    }
    assert(all.take(i as int) =~= all);
    Ok(shared_row(join.union.dup(), shared))
}

/// What is to be done to join the types of branches.
pub enum BranchJoin {
    /// No branch: the type is a fresh variable.
    Fresh,
    /// One branch: the type is its own.
    Single(Type),
    /// The first type is unified with each of the others.
    Unify { first: Type, others: Vec<Type> },
    /// Functions: the first parameter is unified with each of the others, the
    /// results are joined, and the rows are joined.
    Functions {
        param: Type,
        other_params: Vec<Type>,
        results: Vec<Type>,
        rows: Vec<EffectRow>,
    },
}

#[verifier::ext_equal]
pub enum BranchModel {
    Fresh,
    Single(Ty),
    Unify { first: Ty, others: Seq<Ty> },
    Functions { param: Ty, other_params: Seq<Ty>, results: Seq<Ty>, rows: Seq<Row> },
}

impl DeepView for BranchJoin {
    type V = BranchModel;

    open spec fn deep_view(&self) -> BranchModel {
        match self {
            BranchJoin::Fresh => BranchModel::Fresh,
            BranchJoin::Single(t) => BranchModel::Single(t@),
            BranchJoin::Unify { first, others } => BranchModel::Unify {
                first: first@,
                others: others.deep_view(),
            },
            BranchJoin::Functions { param, other_params, results, rows } => BranchModel::Functions {
                param: param@,
                other_params: other_params.deep_view(),
                results: results.deep_view(),
                rows: rows.deep_view(),
            },
        }
    }
}

pub open spec fn param_of(t: Ty) -> Ty {
    match t {
        Ty::Fun(a, _, _) => *a,
        _ => Ty::Error,
    }
}

pub open spec fn return_of(t: Ty) -> Ty {
    match t {
        Ty::Fun(_, b, _) => *b,
        _ => Ty::Error,
    }
}

pub open spec fn row_of(t: Ty) -> Row {
    match t {
        Ty::Fun(_, _, row) => row,
        _ => Row { effects: Seq::empty(), tails: Seq::empty() },
    }
}

/// Whether all of some types are function types.
pub open spec fn all_functions(ts: Seq<Ty>) -> bool {
    forall|i: int| 0 <= i < ts.len() ==> (#[trigger] ts[i]) is Fun
}

/// What is to be done to join the types of branches.
pub open spec fn branch_join(sub: Sub, tys: Seq<Ty>) -> BranchModel {
    let ready = tys.map_values(|t: Ty| applied(sub, t));
    if tys.len() == 0 {
        BranchModel::Fresh
    } else if tys.len() == 1 {
        BranchModel::Single(tys[0])
    } else if all_functions(ready) {
        BranchModel::Functions {
            param: param_of(ready[0]),
            other_params: ready.skip(1).map_values(|t: Ty| param_of(t)),
            results: ready.map_values(|t: Ty| return_of(t)),
            rows: ready.map_values(|t: Ty| row_of(t)),
        }
    } else {
        BranchModel::Unify { first: ready[0], others: ready.skip(1) }
    }
}

fn apply_all(sub: &Substitution, tys: &Vec<Type>) -> (r: Vec<Type>)
    requires
        acyclic(sub@),
    ensures
        r.deep_view() == tys.deep_view().map_values(|t: Ty| applied(sub@, t)),
{
    let mut out: Vec<Type> = Vec::new();
    let mut i: usize = 0;
    while i < tys.len()
        invariant
            i <= tys.len(),
            out.len() == i,
            acyclic(sub@),
            forall|j: int|
                0 <= j < i ==> #[trigger] out.deep_view()[j] == applied(sub@, tys.deep_view()[j]),
        decreases tys.len() - i,
    {
        push_value(&mut out, sub.apply(&tys[i]));
        i = i + 1;
    }
    assert(out.deep_view() =~= tys.deep_view().map_values(|t: Ty| applied(sub@, t)));
    out
}

fn are_functions(ts: &Vec<Type>) -> (r: bool)
    ensures
        r == all_functions(ts.deep_view()),
{
    broadcast use group_type_models;

    let mut i: usize = 0;
    while i < ts.len()
        invariant
            i <= ts.len(),
            forall|j: int| 0 <= j < i ==> (#[trigger] ts.deep_view()[j]) is Fun,
        decreases ts.len() - i,
    {
        let is_fun = match &ts[i] {
            Type::Fun(..) => true,
            _ => false,
        };
        if !is_fun {
            assert(!(ts.deep_view()[i as int] is Fun));
            return false;
        }
        i = i + 1;
    }
    true
}

/// The types from the second on.
fn all_but_first(ts: &Vec<Type>) -> (r: Vec<Type>)
    requires
        ts.len() > 0,
    ensures
        r.deep_view() == ts.deep_view().skip(1),
{
    let mut out: Vec<Type> = Vec::new();
    let mut i: usize = 1;
    while i < ts.len()
        invariant
            1 <= i <= ts.len(),
            out.len() == i - 1,
            forall|j: int|
                0 <= j < i - 1 ==> #[trigger] out.deep_view()[j] == ts.deep_view()[j + 1],
        decreases ts.len() - i,
    {
        push_value(&mut out, ts[i].dup());
        i = i + 1;
    }
    assert(out.deep_view() =~= ts.deep_view().skip(1));
    out
}

/// What is to be done to join the types of branches.
pub fn plan_branch_join(sub: &Substitution, tys: &Vec<Type>) -> (r: BranchJoin)
    requires
        acyclic(sub@),
    ensures
        r.deep_view() == branch_join(sub@, tys.deep_view()),
{
    broadcast use group_type_models;

    assert(tys.deep_view().len() == tys.len());
    if tys.len() == 0 {
        return BranchJoin::Fresh;
    }
    if tys.len() == 1 {
        return BranchJoin::Single(tys[0].dup());
    }
    let ready = apply_all(sub, tys);
    let ghost all = ready.deep_view();
    assert(all.len() == tys.len());
    assert(ready.len() == tys.len()) by {
        assert(all.len() == ready.len());
    }
    if !are_functions(&ready) {
        return BranchJoin::Unify { first: ready[0].dup(), others: all_but_first(&ready) };
    }
    let mut params: Vec<Type> = Vec::new();
    let mut results: Vec<Type> = Vec::new();
    let mut rows: Vec<EffectRow> = Vec::new();
    let mut i: usize = 0;
    while i < ready.len()
        invariant
            i <= ready.len(),
            all == ready.deep_view(),
            all_functions(all),
            params.len() == i,
            results.len() == i,
            rows.len() == i,
            forall|j: int| 0 <= j < i ==> #[trigger] params.deep_view()[j] == param_of(all[j]),
            forall|j: int| 0 <= j < i ==> #[trigger] results.deep_view()[j] == return_of(all[j]),
            forall|j: int| 0 <= j < i ==> #[trigger] rows.deep_view()[j] == row_of(all[j]),
        decreases ready.len() - i,
    {
        broadcast use group_type_models;

        assert(all[i as int] == ready@[i as int]@);
        assert(all[i as int] is Fun);
        if let Type::Fun(p, ret, row) = &ready[i] {
            push_value(&mut params, p.dup());
            push_value(&mut results, ret.dup());
            push_value(&mut rows, row.dup());
        }
        i = i + 1;
    }
    let other_params = all_but_first(&params);
    proof {
        assert(results.deep_view() =~= all.map_values(|t: Ty| return_of(t)));
        assert(rows.deep_view() =~= all.map_values(|t: Ty| row_of(t)));
        assert(params.deep_view() =~= all.map_values(|t: Ty| param_of(t)));
        assert(other_params.deep_view() =~= all.skip(1).map_values(|t: Ty| param_of(t)));
    }
    let param = params[0].dup();
    assert(param@ == params.deep_view()[0]);
    BranchJoin::Functions { param, other_params, results, rows }
}

/// The joined type of functions: the parameter with solved variables applied, the
/// joined return and the joined row.
pub fn join_branch_types(
    sub: &Substitution,
    param: &Type,
    joined_return: Type,
    joined_row: EffectRow,
) -> (r: Type)
    requires
        acyclic(sub@),
    ensures
        r@ == Ty::Fun(
            Box::new(applied(sub@, param@)),
            Box::new(joined_return@),
            joined_row@,
        ),
{
    broadcast use group_type_models;

    Type::Fun(Box::new(sub.apply(param)), Box::new(joined_return), joined_row)
}

/// The tail variables of a function type, solved variables applied; none of
/// another type.
pub open spec fn tails_of(sub: Sub, t: Ty) -> Seq<u32> {
    match applied(sub, t) {
        Ty::Fun(_, _, row) => var_ids(applied_row(sub, row).tails),
        _ => Seq::empty(),
    }
}

/// Positions with one more for a tail.
pub open spec fn with_position(
    at: usize,
    positions: Seq<(u32, Seq<usize>)>,
    id: u32,
) -> Seq<(u32, Seq<usize>)> {
    let before = match at_key(positions, id) {
        Some(p) => p,
        None => Seq::empty(),
    };
    put(positions, id, before.push(at))
}

pub open spec fn with_positions(
    at: usize,
    acc: Seq<(u32, Seq<usize>)>,
    items: Seq<u32>,
) -> Seq<(u32, Seq<usize>)>
    decreases items.len(),
{
    if items.len() == 0 {
        acc
    } else {
        with_position(at, with_positions(at, acc, items.drop_last()), items.last())
    }
}

/// Where each tail variable occurs among the expected types.
pub open spec fn tail_positions(sub: Sub, expected: Seq<Ty>) -> Seq<(u32, Seq<usize>)>
    decreases expected.len(),
{
    if expected.len() == 0 {
        Seq::empty()
    } else {
        with_positions(
            (expected.len() - 1) as usize,
            tail_positions(sub, expected.drop_last()),
            tails_of(sub, expected.last()),
        )
    }
}

fn add_positions(at: usize, acc: &mut Table<u32, Vec<usize>>, items: &Vec<u32>)
    ensures
        final(acc).order() == with_positions(at, old(acc).order(), items.deep_view()),
{
    let ghost a0 = acc.order();
    let ghost all = items.deep_view();
    let mut i: usize = 0;
    assert(all.take(0) =~= Seq::empty());
    while i < items.len()
        invariant
            i <= items.len(),
            all == items.deep_view(),
            acc.order() == with_positions(at, a0, all.take(i as int)),
        decreases items.len() - i,
    {
        proof {
            assert(all.take(i + 1).drop_last() =~= all.take(i as int));
            assert(all.take(i + 1).last() == all[i as int]);
        }
        let mut positions: Vec<usize> = match acc.get(&items[i]) {
            Some(p) => p.dup(),
            None => Vec::new(),
        };
        assert(positions.deep_view() =~= match at_key(acc.order(), items@[i as int]) {
            Some(p) => p,
            None => Seq::empty(),
        });
        push_value(&mut positions, at);
        acc.insert(items[i], positions);
        i = i + 1;
    }
    assert(all.take(i as int) =~= all);
}

/// Where each tail variable occurs among the expected types.
pub fn shared_tail_positions(sub: &Substitution, expected: &Vec<Type>) -> (r: Table<
    u32,
    Vec<usize>,
>)
    requires
        acyclic(sub@),
    ensures
        r.order() == tail_positions(sub@, expected.deep_view()),
{
    let ghost all = expected.deep_view();
    let mut positions: Table<u32, Vec<usize>> = Table::new();
    let mut i: usize = 0;
    assert(all.take(0) =~= Seq::empty());
    while i < expected.len()
        invariant
            i <= expected.len(),
            all == expected.deep_view(),
            acyclic(sub@),
            positions.order() == tail_positions(sub@, all.take(i as int)),
        decreases expected.len() - i,
    {
        broadcast use group_type_models;

        proof {
            assert(all.take(i + 1).drop_last() =~= all.take(i as int));
            assert(all.take(i + 1).last() == expected@[i as int]@);
        }
        let resolved = sub.apply(&expected[i]);
        let ids: Vec<u32> = match &resolved {
            Type::Fun(_, _, row) => sub.apply_effect_row(row).tail_var_ids(),
            _ => Vec::new(),
        };
        assert(ids.deep_view() =~= tails_of(sub@, all[i as int]));
        add_positions(i, &mut positions, &ids);
        i = i + 1;
    }
    assert(all.take(i as int) =~= all);
    positions
}

/// The rows of the actual types at some positions, where all of them are function
/// types.
pub open spec fn rows_at(sub: Sub, actual: Seq<Ty>, positions: Seq<usize>) -> Option<Seq<Row>>
    decreases positions.len(),
{
    if positions.len() == 0 {
        Some(Seq::empty())
    } else {
        match rows_at(sub, actual, positions.drop_last()) {
            None => None,
            Some(rows) => match applied(sub, actual[positions.last() as int]) {
                Ty::Fun(_, _, row) => Some(rows.push(applied_row(sub, row))),
                _ => None,
            },
        }
    }
}

proof fn rows_at_stops(sub: Sub, actual: Seq<Ty>, positions: Seq<usize>, n: int)
    requires
        0 <= n <= positions.len(),
        rows_at(sub, actual, positions.take(n)) is None,
    ensures
        rows_at(sub, actual, positions) is None,
    decreases positions.len(),
{
    if n < positions.len() {
        assert(positions.drop_last().take(n) =~= positions.take(n));
        rows_at_stops(sub, actual, positions.drop_last(), n);
    } else {
        assert(positions.take(n) =~= positions);
    }
}

/// The rows that a tail variable shared by several expected positions has to be
/// widened by; none where it is not shared, or where one of the actual types there
/// is no function type.
pub open spec fn rows_to_share(sub: Sub, actual: Seq<Ty>, positions: Seq<usize>) -> Option<
    Seq<Row>,
> {
    if positions.len() < 2 {
        None
    } else {
        rows_at(sub, actual, positions)
    }
}

/// The rows that a shared tail variable has to be widened by.
pub fn prewiden_shared_rows(
    sub: &Substitution,
    actual: &Vec<Type>,
    positions: &Vec<usize>,
) -> (r: Option<Vec<EffectRow>>)
    requires
        acyclic(sub@),
        forall|i: int| 0 <= i < positions.len() ==> (#[trigger] positions@[i]) < actual.len(),
    ensures
        r.deep_view() == rows_to_share(sub@, actual.deep_view(), positions.deep_view()),
{
    let ghost all = positions.deep_view();
    assert(all.len() == positions.len());
    if positions.len() < 2 {
        return None;
    }
    let mut rows: Vec<EffectRow> = Vec::new();
    let mut i: usize = 0;
    assert(all.take(0) =~= Seq::empty());
    assert(rows.deep_view() =~= Seq::empty());
    while i < positions.len()
        invariant
            i <= positions.len(),
            positions.len() >= 2,
            all == positions.deep_view(),
            acyclic(sub@),
            forall|i: int| 0 <= i < positions.len() ==> (#[trigger] positions@[i]) < actual.len(),
            rows_at(sub@, actual.deep_view(), all.take(i as int)) == Some(rows.deep_view()),
        decreases positions.len() - i,
    {
        broadcast use group_type_models;

        proof {
            assert(all.take(i + 1).drop_last() =~= all.take(i as int));
            assert(all.take(i + 1).last() == positions@[i as int]);
        }
        let t = sub.apply(&actual[positions[i]]);
        match &t {
            Type::Fun(_, _, row) => {
                push_value(&mut rows, sub.apply_effect_row(row));
            },
            _ => {
                proof {
                    rows_at_stops(sub@, actual.deep_view(), all, i + 1);
                }
                return None;
            },
        }
        i = i + 1;
    }
    assert(all.take(i as int) =~= all);
    Some(rows)
}

/// Binds a shared tail variable to the join of the rows that it has to be widened by.
pub fn bind_shared_tail(
    sub: &mut Substitution,
    tail: u32,
    joined: EffectRow,
    span: Span,
) -> (r: Result<(), Diagnostic>)
    ensures
        (final(sub)@, outcome(r)) == match row_bound(old(sub)@, tail, joined@) {
            Ok(after) => (after, Ok::<(), Diag>(())),
            Err(message) => (old(sub)@, Err(an_error_at(span, message))),
        },
{
    match sub.bind_row(tail, joined) {
        Err(e) => Err(e.with_span(span)),
        Ok(_) => Ok(()),
    }
}

/// No effect is named by two entries.
pub open spec fn distinct_effects(effects: Seq<Entry>) -> bool {
    forall|i: int, j: int|
        0 <= i < j < effects.len() ==> (#[trigger] effects[i]).name != (#[trigger] effects[j]).name
}

proof fn entry_named_is_some(effects: Seq<Entry>, name: Seq<char>)
    ensures
        entry_named(effects, name) is Some <==> names_effect(effects, name),
    decreases effects.len(),
{
    if effects.len() > 0 {
        let init = effects.drop_last();
        entry_named_is_some(init, name);
        if names_effect(init, name) {
            let k = choose|k: int| 0 <= k < init.len() && (#[trigger] init[k]).name == name;
            assert(effects[k].name == name);
        }
        if effects.last().name == name {
            assert(effects[effects.len() - 1].name == name);
        }
        if names_effect(effects, name) && effects.last().name != name {
            let k = choose|k: int| 0 <= k < effects.len() && (#[trigger] effects[k]).name == name;
            assert(init[k].name == name);
        }
    }
}

proof fn entry_is_named(u: Union, e: Entry, name: Seq<char>)
    requires
        distinct_effects(u.0),
    ensures
        names_effect(with_entry(u, e).0, name) <==> names_effect(u.0, name) || e.name == name,
        distinct_effects(with_entry(u, e).0),
{
    let after = with_entry(u, e).0;
    entry_named_is_some(u.0, e.name);
    if entry_named(u.0, e.name) is None {
        assert(after[u.0.len() as int] == e);
        if names_effect(u.0, name) {
            let k = choose|k: int| 0 <= k < u.0.len() && (#[trigger] u.0[k]).name == name;
            assert(after[k].name == name);
        }
        if names_effect(after, name) && e.name != name {
            let k = choose|k: int| 0 <= k < after.len() && (#[trigger] after[k]).name == name;
            assert(u.0[k].name == name);
        }
        assert forall|i: int, j: int| 0 <= i < j < after.len() implies (#[trigger] after[i]).name
            != (#[trigger] after[j]).name by {
            assert(after[i] == u.0[i]);
            if j < u.0.len() {
                assert(after[j] == u.0[j]);
            }
        }
    }
}

proof fn entries_are_named(u: Union, effects: Seq<Entry>, name: Seq<char>)
    requires
        distinct_effects(u.0),
    ensures
        names_effect(with_entries(u, effects).0, name) <==> names_effect(u.0, name) || names_effect(
            effects,
            name,
        ),
        distinct_effects(with_entries(u, effects).0),
    decreases effects.len(),
{
    if effects.len() > 0 {
        let init = effects.drop_last();
        entries_are_named(u, init, name);
        entry_is_named(with_entries(u, init), effects.last(), name);
        if names_effect(init, name) {
            let k = choose|k: int| 0 <= k < init.len() && (#[trigger] init[k]).name == name;
            assert(effects[k].name == name);
        }
        assert(effects[effects.len() - 1] == effects.last());
        if names_effect(effects, name) && effects.last().name != name {
            let k = choose|k: int| 0 <= k < effects.len() && (#[trigger] effects[k]).name == name;
            assert(init[k].name == name);
        }
    }
}

/// The union names just the effects of the joined rows, each once.
pub proof fn union_names_every_effect(rows: Seq<Row>, name: Seq<char>)
    ensures
        names_effect(union_of((Seq::empty(), Seq::empty()), rows).0, name) <==> exists|i: int|
            0 <= i < rows.len() && names_effect((#[trigger] rows[i]).effects, name),
        distinct_effects(union_of((Seq::empty(), Seq::empty()), rows).0),
    decreases rows.len(),
{
    let none: Union = (Seq::empty(), Seq::empty());
    if rows.len() > 0 {
        let init = rows.drop_last();
        union_names_every_effect(init, name);
        entries_are_named(union_of(none, init), rows.last().effects, name);
        if names_effect(union_of(none, init).0, name) {
            let i = choose|i: int|
                0 <= i < init.len() && names_effect((#[trigger] init[i]).effects, name);
            assert(names_effect(rows[i].effects, name));
        }
        if names_effect(rows.last().effects, name) {
            assert(names_effect(rows[rows.len() - 1].effects, name));
        }
        if exists|i: int| 0 <= i < rows.len() && names_effect((#[trigger] rows[i]).effects, name) {
            let i = choose|i: int|
                0 <= i < rows.len() && names_effect((#[trigger] rows[i]).effects, name);
            if i < init.len() {
                assert(names_effect(init[i].effects, name));
            }
        }
    }
}

/// What widening tails comes to: each of them is solved to what it is widened by,
/// and nothing else changes.
proof fn tails_are_widened(j: RowJoinModel, shared: u32, span: Span, sub: Sub, ids: Seq<u32>)
    requires
        !ids.contains(shared),
    ensures
        ({
            let w = with_tails(j, shared, span, (sub, Seq::empty()), ids);
            &&& w.1 is Ok
            &&& w.0.0.map == sub.map
            &&& forall|id: u32| #[trigger] w.0.1.contains(id) <==> ids.contains(id)
            &&& forall|id: u32| #[trigger]
                w.0.0.row_map.dom().contains(id) <==> sub.row_map.dom().contains(id)
                    || ids.contains(id)
            &&& forall|id: u32|
                ids.contains(id) ==> #[trigger] w.0.0.row_map[id] == widened_tail(
                    j.rows,
                    j.union,
                    shared,
                    id,
                )
            &&& forall|id: u32|
                !ids.contains(id) ==> #[trigger] w.0.0.row_map[id] == sub.row_map[id]
        }),
    decreases ids.len(),
{
    if ids.len() > 0 {
        let init = ids.drop_last();
        let tail = ids.last();
        assert(ids[ids.len() - 1] == tail);
        assert(!init.contains(shared)) by {
            if init.contains(shared) {
                let k = choose|k: int| 0 <= k < init.len() && init[k] == shared;
                assert(ids[k] == shared);
            }
        }
        tails_are_widened(j, shared, span, sub, init);
        let before = with_tails(j, shared, span, (sub, Seq::empty()), init).0;
        let w = with_tails(j, shared, span, (sub, Seq::empty()), ids);
        assert forall|id: u32| #[trigger] ids.contains(id) <==> init.contains(id) || id == tail by {
            assert(ids =~= init.push(tail));
            push_contains(init, tail, id);
        }
        let row = widened_tail(j.rows, j.union, shared, tail);
        assert(!row.tails.contains(Ty::Var(tail))) by {
            assert(tail != shared);
        }
        if !before.1.contains(tail) {
            assert forall|id: u32| #[trigger] w.0.1.contains(id) <==> ids.contains(id) by {
                push_contains(before.1, tail, id);
                assert(before.1.contains(id) <==> init.contains(id));
            }
        } else {
            assert(init.contains(tail));
        }
    }
}

/// A variable that may become the shared tail of a join: it is not solved, and it is
/// no tail of the rows.
pub open spec fn is_new_tail(sub: Sub, rows: Seq<Row>, shared: u32) -> bool {
    &&& !sub.map.dom().contains(shared)
    &&& !sub.row_map.dom().contains(shared)
    &&& !all_tails(rows).contains(shared)
}

/// A set of variables that holds the shared tail and whatever the arguments of the
/// union lead to, and none of the tails of the rows.
pub open spec fn sets_tails_apart(sub: Sub, j: RowJoinModel, shared: u32, within: Vars) -> bool {
    &&& closed_under(sub, within)
    &&& row_vars_in(within, Row { effects: j.union, tails: seq![Ty::Var(shared)] })
    &&& forall|id: u32| #[trigger] all_tails(j.rows).contains(id) ==> !within.rows.contains(id)
}

/// The arguments of the union lead to none of the tails of the rows.
pub open spec fn tails_are_apart(sub: Sub, j: RowJoinModel, shared: u32) -> bool {
    exists|within: Vars| sets_tails_apart(sub, j, shared, within)
}

/// Joining rows keeps the substitution free of cycles.
pub proof fn joining_keeps_acyclic(sub: Sub, j: RowJoinModel, shared: u32, span: Span)
    requires
        acyclic(sub),
        is_new_tail(sub, j.rows, shared),
        tails_are_apart(sub, j, shared),
    ensures
        acyclic(joined_row(sub, j, shared, span).0),
{
    let within = choose|within: Vars| sets_tails_apart(sub, j, shared, within);
    let ids = all_tails(j.rows);
    tails_are_widened(j, shared, span, sub, ids);
    let after = with_tails(j, shared, span, (sub, Seq::empty()), ids).0.0;
    let member = membership(within);
    let all = Row { effects: j.union, tails: seq![Ty::Var(shared)] };
    assert(row_below(member, all, 1));
    assert forall|id: u32| #[trigger] after.row_map.dom().contains(id) implies (
    sub.row_map.dom().contains(id) && after.row_map[id] == sub.row_map[id]) || (
    !within.rows.contains(id) && row_vars_in(within, after.row_map[id])) by {
        if ids.contains(id) {
            let row = widened_tail(j.rows, j.union, shared, id);
            assert(after.row_map[id] == row);
            assert forall|k: int| 0 <= k < row.effects.len() implies all_below(
                member,
                (#[trigger] row.effects[k]).args,
                1,
            ) by {
                filter_contains(
                    j.union,
                    |e: Entry| lacked_behind(j.rows, id, e.name),
                    row.effects[k],
                );
                assert(row.effects.contains(row.effects[k]));
                let i = choose|i: int| 0 <= i < j.union.len() && j.union[i] == row.effects[k];
                assert(all_below(member, all.effects[i].args, 1));
            }
            assert(row.tails == all.tails);
            assert(row_below(member, row, 1));
        }
    }
    bind_rows_keeps_acyclic(sub, after, within);
}

/// Joining rows succeeds, and applying the substitution to a joined row yields the
/// join: a row with one unsolved tail comes to have the tails of the joined row, and
/// to name just its effects. `planned` is the substitution when the join was planned, `sub` that
/// before the rows are widened.
pub proof fn joined_rows_are_widened(
    planned: Sub,
    sub: Sub,
    rows: Seq<Row>,
    shared: u32,
    span: Span,
    i: int,
    tail: u32,
    name: Seq<char>,
)
    requires
        is_new_tail(sub, row_join(planned, rows).rows, shared),
        acyclic(joined_row(sub, row_join(planned, rows), shared, span).0),
        0 <= i < rows.len(),
        rows[i].tails == seq![Ty::Var(tail)],
        !planned.map.dom().contains(tail),
        !planned.row_map.dom().contains(tail),
        !sub.map.dom().contains(tail),
        !sub.row_map.dom().contains(tail),
    ensures
        ({
            let joined = joined_row(sub, row_join(planned, rows), shared, span);
            let row = joined.1->Ok_0;
            &&& joined.1 is Ok
            &&& row.tails == seq![Ty::Var(shared)]
            &&& applied_row(joined.0, rows[i]).tails == row.tails
            &&& names_effect(applied_row(joined.0, rows[i]).effects, name) <==> names_effect(
                row.effects,
                name,
            )
        }),
{
    let j = row_join(planned, rows);
    let ids = all_tails(j.rows);
    open_row_stays_open(planned, rows[i], tail, name);
    assert(j.rows[i] == applied_row(planned, rows[i]));
    assert(any_open(j.rows)) by {
        assert(j.rows[i].tails.len() > 0);
    }
    one_var_id(tail);
    assert(first_tail(j.rows[i]) == Some(tail));
    tail_is_listed(j.rows, i, tail);
    tails_are_widened(j, shared, span, sub, ids);
    let after = with_tails(j, shared, span, (sub, Seq::empty()), ids).0.0;
    let extras = after.row_map[tail].effects;
    assert(after.row_map.dom().contains(tail));
    assert(after.row_map[tail] == widened_tail(j.rows, j.union, shared, tail));
    assert(!after.row_map.dom().contains(shared));
    open_row_is_widened(after, rows[i], tail, shared, name);
    union_names_every_effect(j.rows, name);
    entry_named_is_some(j.rows[i].effects, name);
    let lacked = |e: Entry| lacked_behind(j.rows, tail, e.name);
    if names_effect(extras, name) {
        let k = choose|k: int| 0 <= k < extras.len() && (#[trigger] extras[k]).name == name;
        filter_contains(j.union, lacked, extras[k]);
        assert(extras.contains(extras[k]));
        let u = choose|u: int| 0 <= u < j.union.len() && j.union[u] == extras[k];
        assert(j.union[u].name == name);
    }
    if names_effect(rows[i].effects, name) {
        assert(names_effect(j.rows[i].effects, name));
    } else if names_effect(j.union, name) {
        let u = choose|u: int| 0 <= u < j.union.len() && (#[trigger] j.union[u]).name == name;
        assert(lacked(j.union[u]));
        filter_contains(j.union, lacked, j.union[u]);
        assert(j.union.contains(j.union[u]));
        let k = choose|k: int| 0 <= k < extras.len() && extras[k] == j.union[u];
        assert(extras[k].name == name);
    }
}

proof fn one_var_id(tail: u32)
    ensures
        var_ids(seq![Ty::Var(tail)]) == seq![tail],
{
    reveal_with_fuel(var_ids, 3);
    let tails = seq![Ty::Var(tail)];
    assert(tails.drop_last() =~= Seq::empty());
    assert(var_ids(tails) =~= seq![tail]);
}

proof fn tail_is_listed(rows: Seq<Row>, i: int, tail: u32)
    requires
        0 <= i < rows.len(),
        var_ids(rows[i].tails).contains(tail),
    ensures
        all_tails(rows).contains(tail),
    decreases rows.len(),
{
    let before = all_tails(rows.drop_last());
    let own = var_ids(rows.last().tails);
    if i < rows.len() - 1 {
        tail_is_listed(rows.drop_last(), i, tail);
        let k = choose|k: int| 0 <= k < before.len() && before[k] == tail;
        assert((before + own)[k] == tail);
    } else {
        let k = choose|k: int| 0 <= k < own.len() && own[k] == tail;
        assert((before + own)[before.len() + k] == tail);
    }
}

/// Whether an entry of a union is another entry, or has each argument paired with the
/// other's, as far as both go.
pub open spec fn pairs_up(u: Entry, e: Entry, pairs: Seq<(Ty, Ty)>) -> bool {
    u == e || forall|a: int|
        0 <= a < u.args.len() && a < e.args.len() ==> pairs.contains(
            (#[trigger] u.args[a], e.args[a]),
        )
}

/// Whether a union has an entry that goes with another one.
spec fn takes_in(u: Union, e: Entry) -> bool {
    exists|x: int|
        0 <= x < u.0.len() && (#[trigger] u.0[x]).name == e.name && pairs_up(u.0[x], e, u.1)
}

proof fn entry_named_is_there(effects: Seq<Entry>, name: Seq<char>)
    requires
        entry_named(effects, name) is Some,
    ensures
        exists|x: int|
            0 <= x < effects.len() && #[trigger] effects[x] == entry_named(effects, name)->0
                && effects[x].name == name,
    decreases effects.len(),
{
    let init = effects.drop_last();
    if entry_named(init, name) is Some {
        entry_named_is_there(init, name);
        let x = choose|x: int|
            0 <= x < init.len() && #[trigger] init[x] == entry_named(init, name)->0
                && init[x].name == name;
        assert(effects[x] == init[x]);
    } else {
        assert(effects[effects.len() - 1] == effects.last());
    }
}

proof fn entry_is_taken_in(u: Union, e: Entry, other: Entry)
    ensures
        takes_in(with_entry(u, e), e),
        takes_in(u, other) ==> takes_in(with_entry(u, e), other),
{
    let after = with_entry(u, e);
    match entry_named(u.0, e.name) {
        Some(existing) => {
            entry_named_is_there(u.0, e.name);
            let x = choose|x: int|
                0 <= x < u.0.len() && #[trigger] u.0[x] == existing && u.0[x].name == e.name;
            let more = pairs_of(existing.args, e.args);
            assert forall|a: int| 0 <= a < existing.args.len() && a < e.args.len() implies after.1.contains(
                (#[trigger] existing.args[a], e.args[a]),
            ) by {
                assert(after.1[u.1.len() + a] == (existing.args[a], e.args[a]));
            }
            assert(after.0[x].name == e.name && pairs_up(after.0[x], e, after.1));
        },
        None => {
            assert(after.0[u.0.len() as int] == e);
        },
    }
    if takes_in(u, other) {
        let x = choose|x: int|
            0 <= x < u.0.len() && (#[trigger] u.0[x]).name == other.name && pairs_up(
                u.0[x],
                other,
                u.1,
            );
        assert(after.0[x] == u.0[x]);
        if u.0[x] != other {
            assert forall|a: int| 0 <= a < u.0[x].args.len() && a < other.args.len() implies after.1.contains(
                (#[trigger] u.0[x].args[a], other.args[a]),
            ) by {
                let pair = (u.0[x].args[a], other.args[a]);
                assert(u.1.contains(pair));
                let k = choose|k: int| 0 <= k < u.1.len() && u.1[k] == pair;
                assert(after.1[k] == pair);
            }
        }
        assert(pairs_up(after.0[x], other, after.1));
    }
}

proof fn entries_are_taken_in(u: Union, effects: Seq<Entry>, e: Entry)
    ensures
        effects.contains(e) || takes_in(u, e) ==> takes_in(with_entries(u, effects), e),
    decreases effects.len(),
{
    if effects.len() > 0 {
        let init = effects.drop_last();
        entries_are_taken_in(u, init, e);
        entry_is_taken_in(with_entries(u, init), effects.last(), e);
        assert(effects =~= init.push(effects.last()));
        push_contains(init, effects.last(), e);
    }
}

proof fn rows_are_taken_in(rows: Seq<Row>, i: int, e: Entry)
    requires
        0 <= i < rows.len(),
        rows[i].effects.contains(e),
    ensures
        takes_in(union_of((Seq::empty(), Seq::empty()), rows), e),
    decreases rows.len(),
{
    let init = rows.drop_last();
    let before = union_of((Seq::empty(), Seq::empty()), init);
    if i < init.len() {
        rows_are_taken_in(init, i, e);
    }
    entries_are_taken_in(before, rows.last().effects, e);
}

/// Whether some row has an entry.
pub open spec fn is_entry_of(rows: Seq<Row>, e: Entry) -> bool {
    exists|i: int| 0 <= i < rows.len() && (#[trigger] rows[i]).effects.contains(e)
}

/// Whether two types are arguments at one place of two entries of rows for one effect.
pub open spec fn are_arguments_of(rows: Seq<Row>, pair: (Ty, Ty)) -> bool {
    exists|u: Entry, e: Entry, a: int|
        #![trigger u.args[a], e.args[a]]
        is_entry_of(rows, u) && is_entry_of(rows, e) && u.name == e.name && 0 <= a < u.args.len()
            && a < e.args.len() && pair == (u.args[a], e.args[a])
}

spec fn comes_from(rows: Seq<Row>, u: Union) -> bool {
    &&& forall|x: int| 0 <= x < u.0.len() ==> is_entry_of(rows, #[trigger] u.0[x])
    &&& forall|x: int| 0 <= x < u.1.len() ==> are_arguments_of(rows, #[trigger] u.1[x])
}

proof fn entries_come_from(rows: Seq<Row>, u: Union, effects: Seq<Entry>)
    requires
        comes_from(rows, u),
        forall|k: int| 0 <= k < effects.len() ==> is_entry_of(rows, #[trigger] effects[k]),
    ensures
        comes_from(rows, with_entries(u, effects)),
    decreases effects.len(),
{
    if effects.len() > 0 {
        let init = effects.drop_last();
        assert forall|k: int| 0 <= k < init.len() implies is_entry_of(rows, #[trigger] init[k]) by {
            assert(init[k] == effects[k]);
        }
        entries_come_from(rows, u, init);
        let before = with_entries(u, init);
        let e = effects.last();
        assert(is_entry_of(rows, effects[effects.len() - 1]));
        let after = with_entry(before, e);
        match entry_named(before.0, e.name) {
            Some(existing) => {
                entry_named_is_there(before.0, e.name);
                let n = before.1.len();
                assert forall|x: int| 0 <= x < after.1.len() implies are_arguments_of(
                    rows,
                    #[trigger] after.1[x],
                ) by {
                    if x < n {
                        assert(after.1[x] == before.1[x]);
                    } else {
                        let a = x - n;
                        assert(after.1[x] == (existing.args[a], e.args[a]));
                    }
                }
            },
            None => {
                assert forall|x: int| 0 <= x < after.0.len() implies is_entry_of(
                    rows,
                    #[trigger] after.0[x],
                ) by {
                    if x < before.0.len() {
                        assert(after.0[x] == before.0[x]);
                    }
                }
            },
        }
    }
}

proof fn unions_come_from(rows: Seq<Row>, n: int)
    requires
        0 <= n <= rows.len(),
    ensures
        comes_from(rows, union_of((Seq::empty(), Seq::empty()), rows.take(n))),
    decreases n,
{
    if n > 0 {
        unions_come_from(rows, n - 1);
        let some = rows.take(n);
        assert(some.drop_last() =~= rows.take(n - 1));
        let effects = some.last().effects;
        assert forall|k: int| 0 <= k < effects.len() implies is_entry_of(
            rows,
            #[trigger] effects[k],
        ) by {
            assert(rows[n - 1].effects.contains(effects[k]));
        }
        entries_come_from(
            rows,
            union_of((Seq::empty(), Seq::empty()), rows.take(n - 1)),
            effects,
        );
    }
}

/// A join unifies the arguments of an effect that its rows share: each entry of a row is
/// the entry of the union for its effect, or each of its arguments is paired with the
/// argument there. Entries and pairs come from the rows alone.
pub proof fn shared_effects_are_unified(sub: Sub, rows: Seq<Row>, i: int, k: int, x: int)
    requires
        0 <= i < rows.len(),
        0 <= k < applied_row(sub, rows[i]).effects.len(),
        0 <= x < row_join(sub, rows).union.len(),
    ensures
        ({
            let j = row_join(sub, rows);
            let e = applied_row(sub, rows[i]).effects[k];
            &&& j.rows.len() == rows.len()
            &&& j.rows[i] == applied_row(sub, rows[i])
            &&& j.union[x].name == e.name ==> pairs_up(j.union[x], e, j.pairs)
            &&& is_entry_of(j.rows, j.union[x])
            &&& forall|n: int|
                0 <= n < j.pairs.len() ==> are_arguments_of(j.rows, #[trigger] j.pairs[n])
        }),
{
    let j = row_join(sub, rows);
    let e = applied_row(sub, rows[i]).effects[k];
    assert(j.rows[i].effects[k] == e);
    rows_are_taken_in(j.rows, i, e);
    union_names_every_effect(j.rows, e.name);
    let y = choose|y: int|
        0 <= y < j.union.len() && (#[trigger] j.union[y]).name == e.name && pairs_up(
            j.union[y],
            e,
            j.pairs,
        );
    if j.union[x].name == e.name {
        assert(x == y);
    }
    unions_come_from(j.rows, j.rows.len() as int);
    assert(j.rows.take(j.rows.len() as int) =~= j.rows);
}

/// Once all pairs of a join are made equal, the entries of the rows have the arguments
/// of the union, as far as both have some.
pub proof fn joined_rows_agree(
    sub: Sub,
    rows: Seq<Row>,
    i: int,
    k: int,
    x: int,
    a: int,
    later: Sub,
)
    requires
        0 <= i < rows.len(),
        0 <= k < applied_row(sub, rows[i]).effects.len(),
        0 <= x < row_join(sub, rows).union.len(),
        row_join(sub, rows).union[x].name == applied_row(sub, rows[i]).effects[k].name,
        0 <= a < row_join(sub, rows).union[x].args.len(),
        a < applied_row(sub, rows[i]).effects[k].args.len(),
        forall|n: int|
            0 <= n < row_join(sub, rows).pairs.len() ==> applied(
                later,
                (#[trigger] row_join(sub, rows).pairs[n]).0,
            ) == applied(later, row_join(sub, rows).pairs[n].1),
    ensures
        applied(later, row_join(sub, rows).union[x].args[a]) == applied(
            later,
            applied_row(sub, rows[i]).effects[k].args[a],
        ),
{
    shared_effects_are_unified(sub, rows, i, k, x);
    let j = row_join(sub, rows);
    let u = j.union[x];
    let e = applied_row(sub, rows[i]).effects[k];
    if u != e {
        assert(j.pairs.contains((u.args[a], e.args[a])));
        let n = choose|n: int| 0 <= n < j.pairs.len() && j.pairs[n] == (u.args[a], e.args[a]);
        assert(applied(later, j.pairs[n].0) == applied(later, j.pairs[n].1));
    }
}

/// A join has the entries of the union. It is open just where one of the rows is, and
/// then the shared tail is its only one; closed rows leave all variables as they are.
pub proof fn joins_are_as_open_as_their_rows(sub: Sub, j: RowJoinModel, shared: u32, span: Span)
    requires
        !all_tails(j.rows).contains(shared),
    ensures
        ({
            let joined = joined_row(sub, j, shared, span);
            let row = joined.1->Ok_0;
            let open = exists|i: int| 0 <= i < j.rows.len() && (#[trigger] j.rows[i]).tails.len() > 0;
            &&& joined.1 is Ok
            &&& row.effects == j.union
            &&& open ==> row.tails == seq![Ty::Var(shared)]
            &&& !open ==> row.tails.len() == 0 && joined.0 == sub
            &&& joined.0.map == sub.map
        }),
{
    tails_are_widened(j, shared, span, sub, all_tails(j.rows));
}

/// Joining the types of two or more branches loses nothing of them: where all are
/// functions, each is made up of its parameter, result and row in the join; else all
/// are to be unified with the first.
pub proof fn branches_are_joined(sub: Sub, tys: Seq<Ty>, i: int)
    requires
        tys.len() >= 2,
        0 <= i < tys.len(),
    ensures
        match branch_join(sub, tys) {
            BranchModel::Functions { param, other_params, results, rows } => {
                &&& other_params.len() == tys.len() - 1
                &&& results.len() == tys.len()
                &&& rows.len() == tys.len()
                &&& applied(sub, tys[i]) == Ty::Fun(
                    Box::new(
                        if i == 0 {
                            param
                        } else {
                            other_params[i - 1]
                        },
                    ),
                    Box::new(results[i]),
                    rows[i],
                )
            },
            BranchModel::Unify { first, others } => {
                &&& others.len() == tys.len() - 1
                &&& applied(sub, tys[i]) == (if i == 0 {
                    first
                } else {
                    others[i - 1]
                })
                &&& exists|k: int|
                    0 <= k < tys.len() && !(applied(sub, #[trigger] tys[k]) is Fun)
            },
            _ => false,
        },
{
    let ready = tys.map_values(|t: Ty| applied(sub, t));
    assert(ready[i] == applied(sub, tys[i]));
    if all_functions(ready) {
        assert(ready[i] is Fun);
    } else {
        let k = choose|k: int| 0 <= k < ready.len() && !((#[trigger] ready[k]) is Fun);
        assert(ready[k] == applied(sub, tys[k]));
    }
}

/// One branch is joined as it is.
pub proof fn single_branches_stay(sub: Sub, ty: Ty)
    ensures
        branch_join(sub, seq![ty]) == BranchModel::Single(ty),
{
}

proof fn positions_are_added(at: usize, acc: Seq<(u32, Seq<usize>)>, items: Seq<u32>, id: u32)
    requires
        distinct_keys(acc),
    ensures
        distinct_keys(with_positions(at, acc, items)),
        forall|p: usize| #[trigger]
            positions_at(with_positions(at, acc, items), id).contains(p) <==> positions_at(
                acc,
                id,
            ).contains(p) || p == at && items.contains(id),
    decreases items.len(),
{
    if items.len() > 0 {
        let init = items.drop_last();
        positions_are_added(at, acc, init, id);
        let before = with_positions(at, acc, init);
        let last = items.last();
        put_then_get(before, last, positions_at(before, last).push(at), id);
        assert(items =~= init.push(last));
        push_contains(init, last, id);
        assert forall|p: usize| #[trigger]
            positions_at(with_positions(at, acc, items), id).contains(p) <==> positions_at(
                acc,
                id,
            ).contains(p) || p == at && items.contains(id) by {
            push_contains(positions_at(before, last), at, p);
            assert(positions_at(before, id).contains(p) <==> positions_at(acc, id).contains(p) || p
                == at && init.contains(id));
        }
    }
}

/// The positions that are listed for a tail.
pub open spec fn positions_at(positions: Seq<(u32, Seq<usize>)>, id: u32) -> Seq<usize> {
    match at_key(positions, id) {
        Some(p) => p,
        None => Seq::empty(),
    }
}

/// Just the positions are listed for a tail at which a function type has it.
pub proof fn tails_are_listed_by_position(sub: Sub, expected: Seq<Ty>, id: u32)
    requires
        expected.len() <= usize::MAX,
    ensures
        distinct_keys(tail_positions(sub, expected)),
        forall|p: usize| #[trigger]
            positions_at(tail_positions(sub, expected), id).contains(p) <==> p < expected.len()
                && has_tail(applied(sub, expected[p as int]), sub, id),
    decreases expected.len(),
{
    if expected.len() > 0 {
        let init = expected.drop_last();
        tails_are_listed_by_position(sub, init, id);
        let at = (expected.len() - 1) as usize;
        positions_are_added(at, tail_positions(sub, init), tails_of(sub, expected.last()), id);
        var_ids_are_vars(row_of(applied(sub, expected.last())), sub, id);
        assert forall|p: usize| #[trigger]
            positions_at(tail_positions(sub, expected), id).contains(p) <==> p < expected.len()
                && has_tail(applied(sub, expected[p as int]), sub, id) by {
            assert(positions_at(tail_positions(sub, init), id).contains(p) <==> p < init.len()
                && has_tail(applied(sub, init[p as int]), sub, id));
        }
    }
}

/// Whether a type is a function type whose row has a tail.
pub open spec fn has_tail(t: Ty, sub: Sub, id: u32) -> bool {
    t matches Ty::Fun(_, _, row) && applied_row(sub, row).tails.contains(Ty::Var(id))
}

proof fn var_ids_are_vars(row: Row, sub: Sub, id: u32)
    ensures
        var_ids(applied_row(sub, row).tails).contains(id) <==> applied_row(
            sub,
            row,
        ).tails.contains(Ty::Var(id)),
{
    vars_among(applied_row(sub, row).tails, id);
}

proof fn vars_among(tails: Seq<Ty>, id: u32)
    ensures
        var_ids(tails).contains(id) <==> tails.contains(Ty::Var(id)),
    decreases tails.len(),
{
    if tails.len() > 0 {
        let init = tails.drop_last();
        vars_among(init, id);
        assert(tails =~= init.push(tails.last()));
        push_contains(init, tails.last(), Ty::Var(id));
        if let Ty::Var(v) = tails.last() {
            push_contains(var_ids(init), v, id);
        }
    }
}

/// The rows that a shared tail is widened by are those of the actual types at its
/// positions, one for each. There are none where a position has no function type, or
/// where there is just one position.
pub proof fn shared_rows_are_those_of_the_actual_types(
    sub: Sub,
    actual: Seq<Ty>,
    positions: Seq<usize>,
)
    ensures
        match rows_to_share(sub, actual, positions) {
            Some(rows) => {
                &&& positions.len() >= 2
                &&& rows.len() == positions.len()
                &&& forall|k: int|
                    0 <= k < positions.len() ==> (applied(
                        sub,
                        actual[#[trigger] positions[k] as int],
                    ) matches Ty::Fun(_, _, row) && rows[k] == applied_row(sub, row))
            },
            None => positions.len() < 2 || exists|k: int|
                0 <= k < positions.len() && !(applied(
                    sub,
                    actual[#[trigger] positions[k] as int],
                ) is Fun),
        },
{
    rows_are_at(sub, actual, positions);
}

proof fn rows_are_at(sub: Sub, actual: Seq<Ty>, positions: Seq<usize>)
    ensures
        match rows_at(sub, actual, positions) {
            Some(rows) => {
                &&& rows.len() == positions.len()
                &&& forall|k: int|
                    0 <= k < positions.len() ==> (applied(
                        sub,
                        actual[#[trigger] positions[k] as int],
                    ) matches Ty::Fun(_, _, row) && rows[k] == applied_row(sub, row))
            },
            None => exists|k: int|
                0 <= k < positions.len() && !(applied(
                    sub,
                    actual[#[trigger] positions[k] as int],
                ) is Fun),
        },
    decreases positions.len(),
{
    if positions.len() > 0 {
        let init = positions.drop_last();
        rows_are_at(sub, actual, init);
        assert(forall|k: int| 0 <= k < init.len() ==> #[trigger] positions[k] == init[k]);
        assert(positions[positions.len() - 1] == positions.last());
        if rows_at(sub, actual, init) is None {
            let k = choose|k: int|
                0 <= k < init.len() && !(applied(sub, actual[#[trigger] init[k] as int]) is Fun);
            assert(positions[k] == init[k]);
        }
    }
}

} // verus!
