//! Sequences in which nothing is repeated, filtered and sorted sequences.

use vstd::prelude::*;
use crate::values::{contains_value, push_value, Same};

verus! {

/// `a`, then each item of `b` that has not come before.
pub open spec fn add_new<A>(a: Seq<A>, b: Seq<A>) -> Seq<A>
    decreases b.len(),
{
    if b.len() == 0 {
        a
    } else {
        let before = add_new(a, b.drop_last());
        if before.contains(b.last()) {
            before
        } else {
            before.push(b.last())
        }
    }
}

/// An item is in the result just where it is in either sequence.
pub proof fn add_new_contains<A>(a: Seq<A>, b: Seq<A>, x: A)
    ensures
        add_new(a, b).contains(x) <==> a.contains(x) || b.contains(x),
    decreases b.len(),
{
    if b.len() > 0 {
        add_new_contains(a, b.drop_last(), x);
        let before = add_new(a, b.drop_last());
        assert(b =~= b.drop_last().push(b.last()));
        if b.contains(x) {
            let i = choose|i: int| 0 <= i < b.len() && b[i] == x;
            if i < b.len() - 1 {
                assert(b.drop_last()[i] == x);
            }
        }
        if b.drop_last().contains(x) {
            let i = choose|i: int| 0 <= i < b.len() - 1 && b.drop_last()[i] == x;
            assert(b[i] == x);
        }
        if before.contains(x) {
            let i = choose|i: int| 0 <= i < before.len() && before[i] == x;
            assert(before.push(b.last())[i] == x);
        }
        assert(b[b.len() - 1] == b.last());
        assert(before.push(b.last())[before.len() as int] == b.last());
        if before.push(b.last()).contains(x) && x != b.last() {
            let i = choose|i: int| 0 <= i < before.len() + 1 && before.push(b.last())[i] == x;
            assert(before[i] == x);
        }
    }
}

/// What there was comes first, unchanged; and where nothing occurred twice,
/// nothing does.
pub proof fn add_new_extends<A>(a: Seq<A>, b: Seq<A>)
    ensures
        a.is_prefix_of(add_new(a, b)),
        a.no_duplicates() ==> add_new(a, b).no_duplicates(),
    decreases b.len(),
{
    if b.len() > 0 {
        add_new_extends(a, b.drop_last());
        let before = add_new(a, b.drop_last());
        if !before.contains(b.last()) {
            let after = before.push(b.last());
            assert(a =~= after.subrange(0, a.len() as int));
            if a.no_duplicates() {
                assert forall|i: int, j: int| 0 <= i < after.len() && 0 <= j < after.len() && i != j implies after[i]
                    != after[j] by {
                    if i < before.len() {
                        assert(before[i] == after[i]);
                    }
                    if j < before.len() {
                        assert(before[j] == after[j]);
                    }
                }
            }
        }
    } else {
        assert(a =~= a.subrange(0, a.len() as int));
    }
}

/// Items that are all there already change nothing.
pub proof fn add_new_absorbs<A>(a: Seq<A>, b: Seq<A>)
    requires
        forall|i: int| 0 <= i < b.len() ==> a.contains(#[trigger] b[i]),
    ensures
        add_new(a, b) == a,
    decreases b.len(),
{
    if b.len() > 0 {
        assert forall|i: int| 0 <= i < b.drop_last().len() implies a.contains(#[trigger] b.drop_last()[i]) by {
            assert(b.drop_last()[i] == b[i]);
        }
        add_new_absorbs(a, b.drop_last());
        assert(b[b.len() - 1] == b.last());
    }
}

/// A pushed item is there, and whatever was there before.
pub proof fn push_contains<A>(s: Seq<A>, y: A, x: A)
    ensures
        s.push(y).contains(x) <==> s.contains(x) || x == y,
{
    if s.contains(x) {
        let i = choose|i: int| 0 <= i < s.len() && s[i] == x;
        assert(s.push(y)[i] == x);
    }
    assert(s.push(y)[s.len() as int] == y);
    if s.push(y).contains(x) && x != y {
        let i = choose|i: int| 0 <= i < s.len() + 1 && s.push(y)[i] == x;
        assert(s[i] == x);
    }
}

/// A sequence in which nothing occurs twice is its own.
pub proof fn add_new_of_distinct<A>(b: Seq<A>)
    requires
        b.no_duplicates(),
    ensures
        add_new(Seq::empty(), b) == b,
    decreases b.len(),
{
    if b.len() > 0 {
        let init = b.drop_last();
        add_new_of_distinct(init);
        if init.contains(b.last()) {
            let i = choose|i: int| 0 <= i < init.len() && init[i] == b.last();
            assert(b[i] == b[b.len() - 1]);
        }
        assert(init.push(b.last()) =~= b);
    } else {
        assert(add_new(Seq::<A>::empty(), b) =~= b);
    }
}

/// Items in three sequences may be added in either grouping.
pub proof fn add_new_in_turn<A>(a: Seq<A>, b: Seq<A>, c: Seq<A>)
    ensures
        add_new(add_new(a, b), c) == add_new(a, b + c),
    decreases c.len(),
{
    if c.len() > 0 {
        add_new_in_turn(a, b, c.drop_last());
        assert((b + c).drop_last() =~= b + c.drop_last());
        assert((b + c).last() == c.last());
    } else {
        assert(b + c =~= b);
    }
}

/// Adds `x` unless it is there already.
pub fn push_new<A: Same>(items: &mut Vec<A>, x: A)
    ensures
        final(items).deep_view() == (if old(items).deep_view().contains(x.deep_view()) {
            old(items).deep_view()
        } else {
            old(items).deep_view().push(x.deep_view())
        }),
{
    if !contains_value(items, &x) {
        push_value(items, x);
    }
}

/// Filtering keeps the items that meet the condition, and no others.
pub proof fn filter_contains<A>(s: Seq<A>, keep: spec_fn(A) -> bool, x: A)
    ensures
        s.filter(keep).contains(x) <==> s.contains(x) && keep(x),
    decreases s.len(),
{
    reveal(Seq::filter);
    if s.len() > 0 {
        let init = s.drop_last();
        let kept = init.filter(keep);
        filter_contains(init, keep, x);
        if s.contains(x) {
            let i = choose|i: int| 0 <= i < s.len() && s[i] == x;
            if i < s.len() - 1 {
                assert(init[i] == x);
            }
        }
        if init.contains(x) {
            let i = choose|i: int| 0 <= i < init.len() && init[i] == x;
            assert(s[i] == x);
        }
        assert(s[s.len() - 1] == s.last());
        if kept.contains(x) {
            let i = choose|i: int| 0 <= i < kept.len() && kept[i] == x;
            assert(kept.push(s.last())[i] == x);
        }
        assert(kept.push(s.last())[kept.len() as int] == s.last());
        if kept.push(s.last()).contains(x) && x != s.last() {
            let i = choose|i: int| 0 <= i < kept.len() + 1 && kept.push(s.last())[i] == x;
            assert(kept[i] == x);
        }
    }
}

/// One item is added at the end, unless it is there.
pub proof fn add_new_one<A>(a: Seq<A>, x: A)
    ensures
        add_new(a, seq![x]) == (if a.contains(x) {
            a
        } else {
            a.push(x)
        }),
{
    assert(seq![x].drop_last() =~= Seq::empty());
    assert(seq![x].last() == x);
    reveal_with_fuel(add_new, 2);
}

/// What is added to distinct values is distinct.
pub proof fn add_new_distinct<A>(a: Seq<A>, b: Seq<A>)
    requires
        a.no_duplicates(),
    ensures
        add_new(a, b).no_duplicates(),
    decreases b.len(),
{
    reveal_with_fuel(add_new, 2);
    if b.len() > 0 {
        add_new_distinct(a, b.drop_last());
        let before = add_new(a, b.drop_last());
        if !before.contains(b.last()) {
            assert forall|i: int, j: int|
                0 <= i < j < before.push(b.last()).len() implies before.push(b.last())[i]
                != before.push(b.last())[j] by {
                if j == before.len() {
                    assert(before.contains(before[i]));
                }
            }
        }
    }
}

} // verus!
