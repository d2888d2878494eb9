//! The modules that canonical names come from.

use vstd::prelude::*;
use crate::table::{lists, with_new, Table};
use crate::text::{before_last_dot, split_last_dot};

verus! {

/// The module in a canonical name: what stands before its last dot.
pub open spec fn own_origins(canonical: Seq<char>) -> Seq<char> {
    match before_last_dot(canonical) {
        Some(module) => module,
        None => canonical,
    }
}

/// The module in a canonical name.
pub fn canonical_module(canonical: &str) -> (r: String)
    ensures
        r@ == own_origins(canonical@),
{
    match split_last_dot(canonical) {
        Some((module, _)) => module,
        None => canonical.to_owned(),
    }
}

/// A map of origins with those of some names added that had none.
pub open spec fn with_origins(
    m: Map<Seq<char>, Seq<char>>,
    names: Set<Seq<char>>,
    origin: spec_fn(Seq<char>) -> Seq<char>,
) -> Map<Seq<char>, Seq<char>> {
    Map::new(
        |c: Seq<char>| m.dom().contains(c) || names.contains(c),
        |c: Seq<char>| if m.dom().contains(c) { m[c] } else { origin(c) },
    )
}

/// What a list of names stands for.
spec fn targets(entries: Seq<(Seq<char>, Seq<char>)>) -> Seq<Seq<char>> {
    entries.map_values(|e: (Seq<char>, Seq<char>)| e.1)
}

proof fn targets_are_values(entries: Seq<(Seq<char>, Seq<char>)>, m: Map<Seq<char>, Seq<char>>)
    requires
        lists(entries, m),
    ensures
        targets(entries).to_set() == m.values(),
{
    assert forall|c: Seq<char>| targets(entries).contains(c) <==> m.values().contains(c) by {
        if targets(entries).contains(c) {
            let j = choose|j: int| 0 <= j < targets(entries).len() && targets(entries)[j] == c;
            assert(m.dom().contains(entries[j].0) && m[entries[j].0] == c);
        }
        if m.values().contains(c) {
            let k = choose|k: Seq<char>| #[trigger] m.dom().contains(k) && m[k] == c;
            let j = choose|j: int| 0 <= j < entries.len() && (#[trigger] entries[j]).0 == k;
            assert(targets(entries)[j] == c);
        }
    }
    assert(targets(entries).to_set() =~= m.values());
}

/// Adds the origins of the names in a table: the modules in the names themselves.
pub fn add_own_origins(origins: &mut Table<String, String>, names: &Table<String, String>)
    ensures
        final(origins).deep_view() == with_origins(
            old(origins).deep_view(),
            names.deep_view().values(),
            |c: Seq<char>| own_origins(c),
        ),
{
    let ghost f = |c: Seq<char>| own_origins(c);
    let ghost m0 = origins.deep_view();
    let ghost all = names.order();
    let n = names.len();
    let mut i: usize = 0;
    assert(with_origins(m0, targets(all.take(0)).to_set(), f) =~= m0);
    while i < n
        invariant
            i <= n,
            n == all.len(),
            all == names.order(),
            f == (|c: Seq<char>| own_origins(c)),
            origins.deep_view() == with_origins(m0, targets(all.take(i as int)).to_set(), f),
        decreases n - i,
    {
        let canonical = names.value(i).clone();
        let module = canonical_module(canonical.as_str());
        proof {
            let done = targets(all.take(i as int));
            assert(targets(all.take(i + 1)) =~= done.push(canonical@));
            assert forall|c: Seq<char>| done.push(canonical@).contains(c) <==> done.contains(c) || c
                == canonical@ by {
                crate::seqs::push_contains(done, canonical@, c);
            }
            assert(with_new(with_origins(m0, done.to_set(), f), canonical@, f(canonical@))
                =~= with_origins(m0, done.push(canonical@).to_set(), f));
        }
        origins.insert_if_absent(canonical, module);
        i = i + 1;
    }
    proof {
        assert(all.take(i as int) =~= all);
        targets_are_values(all, names.deep_view());
    }
}

/// Adds the origins of the names in a table: one module for all of them.
pub fn add_origins_in(
    module_name: &str,
    origins: &mut Table<String, String>,
    names: &Table<String, String>,
)
    ensures
        final(origins).deep_view() == with_origins(
            old(origins).deep_view(),
            names.deep_view().values(),
            |c: Seq<char>| module_name@,
        ),
{
    let ghost f = |c: Seq<char>| module_name@;
    let ghost m0 = origins.deep_view();
    let ghost all = names.order();
    let n = names.len();
    let mut i: usize = 0;
    assert(with_origins(m0, targets(all.take(0)).to_set(), f) =~= m0);
    while i < n
        invariant
            i <= n,
            n == all.len(),
            all == names.order(),
            f == (|c: Seq<char>| module_name@),
            origins.deep_view() == with_origins(m0, targets(all.take(i as int)).to_set(), f),
        decreases n - i,
    {
        let canonical = names.value(i).clone();
        let module = module_name.to_owned();
        proof {
            let done = targets(all.take(i as int));
            assert(targets(all.take(i + 1)) =~= done.push(canonical@));
            assert forall|c: Seq<char>| done.push(canonical@).contains(c) <==> done.contains(c) || c
                == canonical@ by {
                crate::seqs::push_contains(done, canonical@, c);
            }
            assert(with_new(with_origins(m0, done.to_set(), f), canonical@, f(canonical@))
                =~= with_origins(m0, done.push(canonical@).to_set(), f));
        }
        origins.insert_if_absent(canonical, module);
        i = i + 1;
    }
    proof {
        assert(all.take(i as int) =~= all);
        targets_are_values(all, names.deep_view());
    }
}

} // verus!
