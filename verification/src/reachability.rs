//! Paths between modules.

use vstd::prelude::*;

verus! {

/// For each module the modules that it depends on.
pub type Adjacency = Map<Seq<char>, Seq<Seq<char>>>;

/// Whether `a` depends on `b` directly.
pub open spec fn edge(g: Adjacency, a: Seq<char>, b: Seq<char>) -> bool {
    g.dom().contains(a) && g[a].contains(b)
}

pub open spec fn edge_at(g: Adjacency, p: Seq<Seq<char>>, i: int) -> bool {
    edge(g, p[i], p[i + 1])
}

/// Modules each of which depends on the next.
pub open spec fn is_path(g: Adjacency, p: Seq<Seq<char>>) -> bool {
    &&& p.len() > 0
    &&& forall|i: int| 0 <= i < p.len() - 1 ==> #[trigger] edge_at(g, p, i)
}

/// Whether `a` is `b` or depends on it, directly or through others.
pub open spec fn reaches(g: Adjacency, a: Seq<char>, b: Seq<char>) -> bool {
    exists|p: Seq<Seq<char>>| #[trigger] is_path(g, p) && p[0] == a && p.last() == b
}

pub proof fn reaches_self(g: Adjacency, a: Seq<char>)
    ensures
        reaches(g, a, a),
{
    let p = seq![a];
    assert(is_path(g, p));
    assert(p[0] == a && p.last() == a);
}

pub proof fn reaches_edge(g: Adjacency, a: Seq<char>, b: Seq<char>)
    requires
        edge(g, a, b),
    ensures
        reaches(g, a, b),
{
    let p = seq![a, b];
    assert forall|i: int| 0 <= i < p.len() - 1 implies #[trigger] edge_at(g, p, i) by {
        assert(i == 0);
    }
    assert(is_path(g, p));
    assert(p[0] == a && p.last() == b);
}

pub proof fn reaches_through(g: Adjacency, a: Seq<char>, b: Seq<char>, c: Seq<char>)
    requires
        reaches(g, a, b),
        reaches(g, b, c),
    ensures
        reaches(g, a, c),
{
    let p = choose|p: Seq<Seq<char>>| #[trigger] is_path(g, p) && p[0] == a && p.last() == b;
    let q = choose|q: Seq<Seq<char>>| #[trigger] is_path(g, q) && q[0] == b && q.last() == c;
    let r = p + q.drop_first();
    assert forall|i: int| 0 <= i < r.len() - 1 implies #[trigger] edge_at(g, r, i) by {
        if i < p.len() - 1 {
            assert(edge_at(g, p, i));
        } else {
            let j = i - (p.len() - 1);
            assert(edge_at(g, q, j));
            assert(r[i] == q[j]) by {
                if j == 0 {
                    assert(r[i] == p.last());
                }
            }
            assert(r[i + 1] == q[j + 1]);
        }
    }
    assert(is_path(g, r));
    assert(r[0] == a);
    assert(r.last() == c) by {
        if q.len() == 1 {
            assert(r =~= p);
        } else {
            assert(r.last() == q.last());
        }
    }
}

/// A path that starts within a set and ends outside it leaves it somewhere.
pub proof fn path_leaves(
    g: Adjacency,
    within: Set<Seq<char>>,
    a: Seq<char>,
    c: Seq<char>,
) -> (r: (Seq<char>, Seq<char>))
    requires
        reaches(g, a, c),
        within.contains(a),
        !within.contains(c),
    ensures
        within.contains(r.0),
        !within.contains(r.1),
        edge(g, r.0, r.1),
        reaches(g, a, r.0),
        reaches(g, r.1, c),
{
    let p = choose|p: Seq<Seq<char>>| #[trigger] is_path(g, p) && p[0] == a && p.last() == c;
    let i = first_outside(within, p, 0);
    assert(edge_at(g, p, i - 1));
    let front = p.take(i);
    let back = p.skip(i);
    assert forall|j: int| 0 <= j < front.len() - 1 implies #[trigger] edge_at(g, front, j) by {
        assert(edge_at(g, p, j));
    }
    assert forall|j: int| 0 <= j < back.len() - 1 implies #[trigger] edge_at(g, back, j) by {
        assert(edge_at(g, p, j + i));
    }
    assert(is_path(g, front) && front[0] == a && front.last() == p[i - 1]);
    assert(is_path(g, back) && back[0] == p[i] && back.last() == c);
    (p[i - 1], p[i])
}

proof fn first_outside(within: Set<Seq<char>>, p: Seq<Seq<char>>, k: int) -> (i: int)
    requires
        0 <= k < p.len(),
        !within.contains(p.last()),
        within.contains(p[0]),
        forall|j: int| 0 <= j < k ==> within.contains(#[trigger] p[j]),
    ensures
        0 < i < p.len(),
        !within.contains(p[i]),
        within.contains(p[i - 1]),
    decreases p.len() - k,
{
    if within.contains(p[k]) {
        assert(p[p.len() - 1] == p.last());
        first_outside(within, p, k + 1)
    } else {
        assert(within.contains(p[k - 1]));
        k
    }
}

/// Whether the two depend on each other, or are the same.
pub open spec fn mutual(g: Adjacency, a: Seq<char>, b: Seq<char>) -> bool {
    reaches(g, a, b) && reaches(g, b, a)
}

/// The modules of a graph: those with dependencies of their own and those that
/// others depend on.
pub open spec fn is_module(g: Adjacency, x: Seq<char>) -> bool {
    g.dom().contains(x) || exists|a: Seq<char>| #[trigger] edge(g, a, x)
}

/// Whatever is reached from a module is a module.
pub proof fn reaches_modules(g: Adjacency, a: Seq<char>, b: Seq<char>)
    requires
        is_module(g, a),
        reaches(g, a, b),
    ensures
        is_module(g, b),
{
    let p = choose|p: Seq<Seq<char>>| #[trigger] is_path(g, p) && p[0] == a && p.last() == b;
    if p.len() > 1 {
        assert(edge_at(g, p, p.len() - 2));
        assert(edge(g, p[p.len() - 2], b));
    }
}

} // verus!
