//! Sorted lists of names.

use vstd::prelude::*;
use vstd::relations::{sorted_by, total_ordering};
use crate::text::{text_at_most, text_le, text_le_total_order};

verus! {

/// The order of names, as a relation.
pub open spec fn text_order() -> spec_fn(Seq<char>, Seq<char>) -> bool {
    |a: Seq<char>, b: Seq<char>| text_le(a, b)
}

/// The same names in order.
pub open spec fn sorted_texts(s: Seq<Seq<char>>) -> Seq<Seq<char>> {
    s.sort_by(text_order())
}

/// `r` names each member of `s` once, in order.
pub open spec fn lists_in_order(r: Seq<Seq<char>>, s: Set<Seq<char>>) -> bool {
    &&& forall|i: int, j: int|
        0 <= i < j < r.len() ==> text_le(#[trigger] r[i], #[trigger] r[j]) && r[i] != r[j]
    &&& forall|x: Seq<char>| #[trigger] r.contains(x) <==> s.contains(x)
}

/// The members of a finite set in order.
pub open spec fn ordered(s: Set<Seq<char>>) -> Seq<Seq<char>> {
    choose|r: Seq<Seq<char>>| lists_in_order(r, s)
}

/// Whatever lists a set in order is its listing.
pub proof fn ordered_is(r: Seq<Seq<char>>, s: Set<Seq<char>>)
    requires
        lists_in_order(r, s),
    ensures
        r == ordered(s),
{
    ordered_listing_is_unique(r, ordered(s), s);
}

proof fn text_order_is_total()
    ensures
        total_ordering(text_order()),
{
    text_le_total_order();
    let r = text_order();
    assert forall|x: Seq<char>| #[trigger] r(x, x) by {
        assert(text_le(x, x));
    }
    assert forall|x: Seq<char>, y: Seq<char>| #[trigger] r(
        x,
        y,
    ) && #[trigger] r(y, x) implies x == y by {
        assert(text_le(x, y) && text_le(y, x));
    }
    assert forall|x: Seq<char>, y: Seq<char>, z: Seq<char>| #[trigger]
        r(x, y) && #[trigger] r(y, z) implies r(x, z) by {
        assert(text_le(x, y) && text_le(y, z));
    }
    assert forall|x: Seq<char>, y: Seq<char>| #[trigger] r(x, y) || #[trigger] r(y, x) by {
        assert(text_le(x, y) || text_le(y, x));
    }
}

/// Sorting keeps the names and puts them in order, and no other list does both.
pub proof fn sorting_is_determined(s: Seq<Seq<char>>, r: Seq<Seq<char>>)
    ensures
        sorted_by(sorted_texts(s), text_order()),
        sorted_texts(s).to_multiset() == s.to_multiset(),
        sorted_by(r, text_order()) && r.to_multiset() == s.to_multiset() ==> r == sorted_texts(s),
{
    text_order_is_total();
    s.lemma_sort_by_ensures(text_order());
    if sorted_by(r, text_order()) && r.to_multiset() == s.to_multiset() {
        vstd::seq_lib::lemma_sorted_unique(r, sorted_texts(s), text_order());
    }
}

/// Where `x` belongs in a sorted list: behind everything that is at most `x`.
fn place_of(v: &Vec<String>, x: &str) -> (p: usize)
    requires
        sorted_by(v.deep_view(), text_order()),
    ensures
        p <= v.len(),
        forall|i: int| 0 <= i < p ==> text_le(#[trigger] v.deep_view()[i], x@),
        forall|i: int| p <= i < v.len() ==> !text_le(#[trigger] v.deep_view()[i], x@),
{
    let mut p: usize = 0;
    while p < v.len() && text_at_most(v[p].as_str(), x)
        invariant
            p <= v.len(),
            forall|i: int| 0 <= i < p ==> text_le(#[trigger] v.deep_view()[i], x@),
        decreases v.len() - p,
    {
        p = p + 1;
    }
    proof {
        text_le_total_order();
        let s = v.deep_view();
        assert forall|i: int| p <= i < v.len() implies !text_le(#[trigger] s[i], x@) by {
            if p < i {
                assert(text_order()(s[p as int], s[i]));
                assert(text_le(s[p as int], s[i]));
                if text_le(s[i], x@) {
                    assert(text_le(s[p as int], x@));
                }
            }
        }
    }
    p
}

proof fn insert_keeps_sorted(s: Seq<Seq<char>>, p: int, x: Seq<char>)
    requires
        sorted_by(s, text_order()),
        0 <= p <= s.len(),
        forall|i: int| 0 <= i < p ==> text_le(#[trigger] s[i], x),
        forall|i: int| p <= i < s.len() ==> !text_le(#[trigger] s[i], x),
    ensures
        sorted_by(s.insert(p, x), text_order()),
{
    text_le_total_order();
    let r = s.insert(p, x);
    assert forall|i: int, j: int| 0 <= i < j < r.len() implies #[trigger] text_order()(r[i], r[j]) by {
        let i0 = if i < p { i } else { i - 1 };
        let j0 = if j < p { j } else { j - 1 };
        if i != p && j != p {
            assert(r[i] == s[i0] && r[j] == s[j0]);
            assert(text_order()(s[i0], s[j0]));
        } else if i == p {
            assert(r[j] == s[j0]);
            assert(!text_le(s[j0], x));
            assert(text_le(x, s[j0]) || text_le(s[j0], x));
        } else {
            assert(r[i] == s[i0]);
        }
        assert(text_le(r[i], r[j]));
    }
}

/// The names in order.
pub fn sort_texts(v: &Vec<String>) -> (r: Vec<String>)
    ensures
        r.deep_view() == sorted_texts(v.deep_view()),
{
    let mut out: Vec<String> = Vec::new();
    let mut i: usize = 0;
    assert(out.deep_view() =~= Seq::empty());
    assert(v.deep_view().take(0) =~= Seq::empty());
    while i < v.len()
        invariant
            i <= v.len(),
            sorted_by(out.deep_view(), text_order()),
            out.deep_view().to_multiset() == v.deep_view().take(i as int).to_multiset(),
        decreases v.len() - i,
    {
        let p = place_of(&out, v[i].as_str());
        let ghost before = out.deep_view();
        let ghost x = v@[i as int]@;
        proof {
            insert_keeps_sorted(before, p as int, x);
        }
        out.insert(p, v[i].clone());
        proof {
            assert(out.deep_view() =~= before.insert(p as int, x));
            assert(v.deep_view().take(i + 1) =~= v.deep_view().take(i as int).push(x));
            vstd::seq_lib::to_multiset_insert(before, p as int, x);
            vstd::seq_lib::to_multiset_build(v.deep_view().take(i as int), x);
        }
        i = i + 1;
    }
    proof {
        assert(v.deep_view().take(i as int) =~= v.deep_view());
        sorting_is_determined(v.deep_view(), out.deep_view());
    }
    out
}

/// Puts `x` into an ordered list, unless it is there.
pub fn insert_in_order(v: &mut Vec<String>, x: String)
    requires
        exists|s: Set<Seq<char>>| lists_in_order(old(v).deep_view(), s),
    ensures
        forall|s: Set<Seq<char>>| #[trigger]
            lists_in_order(old(v).deep_view(), s) ==> lists_in_order(
                final(v).deep_view(),
                s.insert(x@),
            ),
{
    let ghost before = v.deep_view();
    proof {
        assert forall|i: int, j: int| 0 <= i < j < before.len() implies #[trigger] text_order()(
            before[i],
            before[j],
        ) by {
            assert(text_le(before[i], before[j]));
        }
    }
    let p = place_of(v, x.as_str());
    if p > 0 && v[p - 1] == x {
        assert(before[p - 1] == x@);
        assert(before.contains(x@));
        return ;
    }
    v.insert(p, x);
    proof {
        let after = v.deep_view();
        assert(after =~= before.insert(p as int, x@));
        insert_keeps_sorted(before, p as int, x@);
        text_le_total_order();
        assert forall|i: int, j: int| 0 <= i < j < after.len() implies text_le(
            #[trigger] after[i],
            #[trigger] after[j],
        ) && after[i] != after[j] by {
            assert(text_order()(after[i], after[j]));
            let i0 = if i < p { i } else { i - 1 };
            let j0 = if j < p { j } else { j - 1 };
            if i != p && j != p {
                assert(after[i] == before[i0] && after[j] == before[j0]);
            } else if j == p {
                assert(after[i] == before[i]);
                if before[i] == x@ {
                    if i < p - 1 {
                        assert(text_le(before[i], before[p - 1]));
                        assert(text_le(before[p - 1], x@));
                        assert(before[p - 1] == x@);
                    }
                }
            } else {
                assert(after[j] == before[j0]);
                assert(!text_le(before[j0], x@));
                assert(text_le(x@, x@));
            }
        }
        assert forall|s: Set<Seq<char>>| #[trigger]
            lists_in_order(before, s) implies lists_in_order(after, s.insert(x@)) by {
            assert forall|y: Seq<char>| #[trigger] after.contains(y) <==> s.insert(x@).contains(y) by {
                if after.contains(y) {
                    let i = choose|i: int| 0 <= i < after.len() && after[i] == y;
                    if i != p {
                        let i0 = if i < p { i } else { i - 1 };
                        assert(before[i0] == y);
                        assert(before.contains(y));
                    }
                }
                if s.insert(x@).contains(y) {
                    if y == x@ {
                        assert(after[p as int] == y);
                    } else {
                        assert(before.contains(y));
                        let i = choose|i: int| 0 <= i < before.len() && before[i] == y;
                        let i2 = if i < p { i } else { i + 1 };
                        assert(after[i2] == y);
                    }
                }
            }
        }
    }
}

/// The members of `names` once each, in order.
pub fn ordered_set(names: &Vec<String>) -> (r: Vec<String>)
    ensures
        lists_in_order(r.deep_view(), names.deep_view().to_set()),
{
    let mut out: Vec<String> = Vec::new();
    let mut i: usize = 0;
    let ghost mut s = Set::<Seq<char>>::empty();
    proof {
        assert(out.deep_view() =~= Seq::empty());
        assert(lists_in_order(out.deep_view(), s));
    }
    while i < names.len()
        invariant
            i <= names.len(),
            s == names.deep_view().take(i as int).to_set(),
            lists_in_order(out.deep_view(), s),
        decreases names.len() - i,
    {
        insert_in_order(&mut out, names[i].clone());
        proof {
            let x = names@[i as int]@;
            let before = names.deep_view().take(i as int);
            let after = names.deep_view().take(i + 1);
            assert(after =~= before.push(x));
            assert(s.insert(x) =~= after.to_set()) by {
                assert forall|y: Seq<char>| s.insert(x).contains(y) <==> after.to_set().contains(y) by {
                    crate::seqs::push_contains(before, x, y);
                }
            }
            s = s.insert(x);
        }
        i = i + 1;
    }
    assert(names.deep_view().take(i as int) =~= names.deep_view());
    out
}

/// There is one way to list a set in order.
pub proof fn ordered_listing_is_unique(a: Seq<Seq<char>>, b: Seq<Seq<char>>, s: Set<Seq<char>>)
    requires
        lists_in_order(a, s),
        lists_in_order(b, s),
    ensures
        a == b,
    decreases a.len(),
{
    text_le_total_order();
    if a.len() == 0 {
        if b.len() > 0 {
            assert(b.contains(b[0]));
            assert(a.contains(b[0]));
        }
        assert(a =~= b);
    } else {
        let x = a.last();
        assert(a[a.len() - 1] == x);
        assert(a.contains(x));
        assert(b.contains(x));
        let j = choose|j: int| 0 <= j < b.len() && b[j] == x;
        assert(b.contains(b[b.len() - 1]));
        assert(a.contains(b[b.len() - 1]));
        let i = choose|i: int| 0 <= i < a.len() && a[i] == b[b.len() - 1];
        if j < b.len() - 1 {
            assert(text_le(b[j], b[b.len() - 1]) && b[j] != b[b.len() - 1]);
            if i < a.len() - 1 {
                assert(text_le(a[i], a[a.len() - 1]));
            }
            assert(false);
        }
        let a1 = a.drop_last();
        let b1 = b.drop_last();
        listing_without_last(a, s);
        listing_without_last(b, s);
        ordered_listing_is_unique(a1, b1, s.remove(x));
        assert(a =~= a1.push(x));
        assert(b =~= b1.push(x));
    }
}

proof fn listing_without_last(a: Seq<Seq<char>>, s: Set<Seq<char>>)
    requires
        a.len() > 0,
        lists_in_order(a, s),
    ensures
        lists_in_order(a.drop_last(), s.remove(a.last())),
{
    let a1 = a.drop_last();
    assert forall|i: int, j: int| 0 <= i < j < a1.len() implies text_le(
        #[trigger] a1[i],
        #[trigger] a1[j],
    ) && a1[i] != a1[j] by {
        assert(a1[i] == a[i] && a1[j] == a[j]);
    }
    assert forall|y: Seq<char>| #[trigger] a1.contains(y) <==> s.remove(a.last()).contains(y) by {
        crate::seqs::push_contains(a1, a.last(), y);
        assert(a =~= a1.push(a.last()));
        assert(a.contains(y) <==> s.contains(y));
        if a1.contains(y) {
            let i = choose|i: int| 0 <= i < a1.len() && a1[i] == y;
            assert(a[i] != a[a.len() - 1]);
        }
    }
}

/// Where a text belongs in an ordered list.
proof fn place_in_order(r: Seq<Seq<char>>, x: Seq<char>) -> (p: int)
    requires
        forall|i: int, j: int| 0 <= i < j < r.len() ==> text_le(#[trigger] r[i], #[trigger] r[j]),
    ensures
        0 <= p <= r.len(),
        forall|i: int| 0 <= i < p ==> text_le(#[trigger] r[i], x),
        forall|i: int| p <= i < r.len() ==> text_le(x, #[trigger] r[i]),
    decreases r.len(),
{
    text_le_total_order();
    if r.len() == 0 {
        0
    } else {
        let init = r.drop_last();
        assert(forall|i: int| 0 <= i < init.len() ==> #[trigger] init[i] == r[i]);
        assert(r[r.len() - 1] == r.last());
        if text_le(r.last(), x) {
            assert forall|i: int| 0 <= i < r.len() implies text_le(#[trigger] r[i], x) by {
                if i < r.len() - 1 {
                    assert(text_le(r[i], r[r.len() - 1]));
                }
            }
            r.len() as int
        } else {
            let p = place_in_order(init, x);
            assert forall|i: int| 0 <= i < p implies text_le(#[trigger] r[i], x) by {
                assert(text_le(init[i], x));
            }
            assert forall|i: int| p <= i < r.len() implies text_le(x, #[trigger] r[i]) by {
                if i < init.len() {
                    assert(text_le(x, init[i]));
                }
            }
            p
        }
    }
}

proof fn listing_with_one_more(
    r: Seq<Seq<char>>,
    s: Set<Seq<char>>,
    x: Seq<char>,
) -> (after: Seq<Seq<char>>)
    requires
        lists_in_order(r, s),
    ensures
        lists_in_order(after, s.insert(x)),
{
    if r.contains(x) {
        assert(s.contains(x));
        assert(s.insert(x) =~= s);
        r
    } else {
        let p = place_in_order(r, x);
        let after = r.insert(p, x);
        assert forall|i: int, j: int| 0 <= i < j < after.len() implies text_le(
            #[trigger] after[i],
            #[trigger] after[j],
        ) && after[i] != after[j] by {
            let a = if i < p { i } else { i - 1 };
            let b = if j < p { j } else { j - 1 };
            if i != p {
                assert(after[i] == r[a]);
                assert(r.contains(r[a]));
            }
            if j != p {
                assert(after[j] == r[b]);
                assert(r.contains(r[b]));
            }
        }
        assert forall|y: Seq<char>| #[trigger] after.contains(y) <==> s.insert(x).contains(y) by {
            assert(r.contains(y) <==> s.contains(y));
            if after.contains(y) {
                let i = choose|i: int| 0 <= i < after.len() && after[i] == y;
                if i < p {
                    assert(r[i] == y);
                } else if i > p {
                    assert(r[i - 1] == y);
                }
            }
            if r.contains(y) {
                let i = choose|i: int| 0 <= i < r.len() && r[i] == y;
                if i < p {
                    assert(after[i] == y);
                } else {
                    assert(after[i + 1] == y);
                }
            }
            assert(after[p] == x);
        }
        after
    }
}

proof fn names_have_a_listing(names: Seq<Seq<char>>) -> (r: Seq<Seq<char>>)
    ensures
        lists_in_order(r, names.to_set()),
    decreases names.len(),
{
    if names.len() == 0 {
        let none: Seq<Seq<char>> = Seq::empty();
        assert forall|x: Seq<char>| #[trigger] none.contains(x) <==> names.to_set().contains(x) by {}
        none
    } else {
        let init = names.drop_last();
        let r = names_have_a_listing(init);
        assert(names.to_set() =~= init.to_set().insert(names.last())) by {
            assert forall|x: Seq<char>| names.to_set().contains(x) <==> init.to_set().insert(
                names.last(),
            ).contains(x) by {
                assert(names =~= init.push(names.last()));
                crate::seqs::push_contains(init, names.last(), x);
            }
        }
        listing_with_one_more(r, init.to_set(), names.last())
    }
}

/// Listing names in order lists just these names, each once, and smaller ones first.
pub proof fn listings_have_each_name_once(names: Seq<Seq<char>>)
    ensures
        forall|x: Seq<char>| #[trigger] ordered(names.to_set()).contains(x) <==> names.contains(x),
        forall|i: int, j: int|
            0 <= i < j < ordered(names.to_set()).len() ==> text_le(
                #[trigger] ordered(names.to_set())[i],
                #[trigger] ordered(names.to_set())[j],
            ) && ordered(names.to_set())[i] != ordered(names.to_set())[j],
{
    let r = names_have_a_listing(names);
    ordered_is(r, names.to_set());
    assert forall|x: Seq<char>| #[trigger] ordered(names.to_set()).contains(x) <==> names.contains(
        x,
    ) by {
        assert(names.to_set().contains(x) <==> names.contains(x));
    }
}

/// Sorting keeps just the names that there are.
pub proof fn sorting_keeps_names(s: Seq<Seq<char>>, x: Seq<char>)
    ensures
        sorted_texts(s).contains(x) <==> s.contains(x),
        sorted_texts(s).len() == s.len(),
{
    broadcast use vstd::seq_lib::group_to_multiset_ensures;

    sorting_is_determined(s, s);
    let r = sorted_texts(s);
    assert(s.to_multiset().count(x) == r.to_multiset().count(x));
    assert(s.to_multiset().len() == r.to_multiset().len());
}

} // verus!
