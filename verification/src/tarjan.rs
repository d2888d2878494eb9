//! Strongly connected components of a module graph.

use vstd::prelude::*;
use crate::reachability::{
    edge, is_module, mutual, path_leaves, reaches, reaches_edge, reaches_self, reaches_through, Adjacency,
};
use crate::sorting::{lists_in_order, ordered_set};
use crate::table::Table;
use crate::values::{contains_value, push_value, Dup};

verus! {

/// A strongly connected set of modules that must be processed together.
#[derive(Debug, Clone, PartialEq, Eq)]
pub struct ModuleScc {
    pub modules: Vec<String>,
}

impl DeepView for ModuleScc {
    type V = Seq<Seq<char>>;

    open spec fn deep_view(&self) -> Seq<Seq<char>> {
        self.modules.deep_view()
    }
}

impl Dup for ModuleScc {
    fn dup(&self) -> (r: Self) {
        ModuleScc { modules: self.modules.dup() }
    }
}

/// How far the search for components has come: the modules in the order in
/// which they were met, those among them that are not in a component yet, and
/// the components found.
#[verifier::ext_equal]
pub struct Progress {
    pub order: Seq<Seq<char>>,
    pub stack: Seq<Seq<char>>,
    pub comps: Seq<Seq<Seq<char>>>,
}

pub struct TarjanState {
    order: Vec<String>,
    stack: Vec<String>,
    components: Vec<ModuleScc>,
}

impl View for TarjanState {
    type V = Progress;

    closed spec fn view(&self) -> Progress {
        Progress {
            order: self.order.deep_view(),
            stack: self.stack.deep_view(),
            comps: self.components.deep_view(),
        }
    }
}

pub open spec fn in_component(comps: Seq<Seq<Seq<char>>>, x: Seq<char>) -> bool {
    exists|i: int| 0 <= i < comps.len() && (#[trigger] comps[i]).contains(x)
}

/// Each component is listed in order and holds with a module just those that it
/// depends on and that depend on it.
pub open spec fn are_classes(g: Adjacency, comps: Seq<Seq<Seq<char>>>) -> bool {
    &&& forall|i: int| 0 <= i < comps.len() ==> (#[trigger] comps[i]).len() > 0
    &&& forall|i: int|
        0 <= i < comps.len() ==> lists_in_order(#[trigger] comps[i], comps[i].to_set())
    &&& forall|i: int, x: Seq<char>, y: Seq<char>|
        #![trigger comps[i].contains(x), comps[i].contains(y)]
        0 <= i < comps.len() && comps[i].contains(x) ==> (comps[i].contains(y) <==> mutual(
            g,
            x,
            y,
        ))
}

/// No module is in two components.
pub open spec fn are_disjoint(comps: Seq<Seq<Seq<char>>>) -> bool {
    forall|i: int, j: int, x: Seq<char>|
        #![trigger comps[i].contains(x), comps[j].contains(x)]
        0 <= i < comps.len() && 0 <= j < comps.len() && comps[i].contains(x) && comps[j].contains(x)
            ==> i == j
}

/// What a component depends on is in it or in one before it.
pub open spec fn dependencies_first(g: Adjacency, comps: Seq<Seq<Seq<char>>>) -> bool {
    forall|i: int, x: Seq<char>, y: Seq<char>|
        #![trigger comps[i].contains(x), edge(g, x, y)]
        0 <= i < comps.len() && comps[i].contains(x) && edge(g, x, y) ==> in_component(
            comps.take(i + 1),
            y,
        )
}

/// When a module was met.
spec fn num(order: Seq<Seq<char>>, x: Seq<char>) -> int {
    order.index_of(x)
}

spec fn bookkeeping(nodes: Set<Seq<char>>, t: Progress) -> bool {
    &&& t.order.no_duplicates()
    &&& t.stack.no_duplicates()
    &&& forall|i: int| 0 <= i < t.order.len() ==> nodes.contains(#[trigger] t.order[i])
    &&& forall|x: Seq<char>| #[trigger]
        t.order.contains(x) <==> t.stack.contains(x) || in_component(t.comps, x)
    &&& forall|x: Seq<char>| #[trigger] t.stack.contains(x) ==> !in_component(t.comps, x)
    &&& forall|i: int, j: int|
        0 <= i < j < t.stack.len() ==> num(t.order, #[trigger] t.stack[i]) < num(
            t.order,
            #[trigger] t.stack[j],
        )
}

/// `active` are the modules whose dependencies are being followed.
spec fn active_links(g: Adjacency, t: Progress, active: Seq<Seq<char>>) -> bool {
    &&& forall|i: int| 0 <= i < active.len() ==> t.stack.contains(#[trigger] active[i])
    &&& forall|x: Seq<char>, y: Seq<char>|
        t.order.contains(x) && !active.contains(x) && #[trigger] edge(g, x, y) ==> t.order.contains(
            y,
        )
    &&& forall|i: int, j: int|
        0 <= i <= j < t.stack.len() ==> reaches(g, #[trigger] t.stack[i], #[trigger] t.stack[j])
    &&& forall|j: int|
        0 <= j < t.stack.len() ==> #[trigger] leads_to_active(g, t.stack, active, j)
}

/// From the module at `j`, an active one that is not above it is reached.
spec fn leads_to_active(
    g: Adjacency,
    stack: Seq<Seq<char>>,
    active: Seq<Seq<char>>,
    j: int,
) -> bool {
    exists|k: int|
        0 <= k <= j && active.contains(#[trigger] stack[k]) && reaches(g, stack[j], stack[k])
}

spec fn search_inv(
    g: Adjacency,
    nodes: Set<Seq<char>>,
    t: Progress,
    active: Seq<Seq<char>>,
) -> bool {
    &&& nodes.finite()
    &&& forall|a: Seq<char>, b: Seq<char>| #[trigger] edge(g, a, b) ==> nodes.contains(b)
    &&& bookkeeping(nodes, t)
    &&& are_classes(g, t.comps)
    &&& are_disjoint(t.comps)
    &&& dependencies_first(g, t.comps)
    &&& active_links(g, t, active)
}

proof fn num_at(order: Seq<Seq<char>>, k: int)
    requires
        order.no_duplicates(),
        0 <= k < order.len(),
    ensures
        num(order, order[k]) == k,
{
    assert(order.contains(order[k]));
}

proof fn num_is_position(order: Seq<Seq<char>>, x: Seq<char>)
    requires
        order.contains(x),
    ensures
        0 <= num(order, x) < order.len(),
        order[num(order, x)] == x,
{
}

proof fn num_stays(before: Seq<Seq<char>>, after: Seq<Seq<char>>, x: Seq<char>)
    requires
        after.no_duplicates(),
        before.is_prefix_of(after),
        before.contains(x),
    ensures
        num(after, x) == num(before, x),
{
    let k = num(before, x);
    assert(before[k] == x);
    assert(after[k] == x) by {
        assert(before =~= after.subrange(0, before.len() as int));
        assert(after.subrange(0, before.len() as int)[k] == after[k]);
    }
    num_at(after, k);
}

proof fn prefix_contains(before: Seq<Seq<char>>, after: Seq<Seq<char>>, x: Seq<char>)
    requires
        before.is_prefix_of(after),
        before.contains(x),
    ensures
        after.contains(x),
{
    let k = before.index_of(x);
    assert(after[k] == x) by {
        assert(after.subrange(0, before.len() as int)[k] == after[k]);
    }
}

/// A module is met: it goes on the stack and becomes active.
proof fn meet(
    g: Adjacency,
    nodes: Set<Seq<char>>,
    t: Progress,
    active: Seq<Seq<char>>,
    x: Seq<char>,
)
    requires
        search_inv(g, nodes, t, active),
        nodes.contains(x),
        !t.order.contains(x),
        forall|i: int| 0 <= i < active.len() ==> reaches(g, #[trigger] active[i], x),
    ensures
        search_inv(
            g,
            nodes,
            Progress { order: t.order.push(x), stack: t.stack.push(x), ..t },
            active.push(x),
        ),
{
    let u = Progress { order: t.order.push(x), stack: t.stack.push(x), ..t };
    let active1 = active.push(x);
    assert(!t.stack.contains(x) && !in_component(t.comps, x));
    assert(bookkeeping(nodes, u)) by {
        assert forall|i: int, j: int|
            0 <= i < u.order.len() && 0 <= j < u.order.len() && i != j implies u.order[i]
            != u.order[j] by {
            if i < t.order.len() {
                assert(t.order.contains(t.order[i]));
            }
            if j < t.order.len() {
                assert(t.order.contains(t.order[j]));
            }
        }
        assert forall|i: int, j: int|
            0 <= i < u.stack.len() && 0 <= j < u.stack.len() && i != j implies u.stack[i]
            != u.stack[j] by {
            if i < t.stack.len() {
                assert(t.stack.contains(t.stack[i]));
            }
            if j < t.stack.len() {
                assert(t.stack.contains(t.stack[j]));
            }
        }
        assert forall|y: Seq<char>| #[trigger]
            u.order.contains(y) <==> u.stack.contains(y) || in_component(u.comps, y) by {
            crate::seqs::push_contains(t.order, x, y);
            crate::seqs::push_contains(t.stack, x, y);
            assert(t.order.contains(y) <==> t.stack.contains(y) || in_component(t.comps, y));
        }
        assert forall|y: Seq<char>| #[trigger] u.stack.contains(y) implies !in_component(
            u.comps,
            y,
        ) by {
            crate::seqs::push_contains(t.stack, x, y);
        }
        assert(t.order =~= u.order.subrange(0, t.order.len() as int));
        assert forall|i: int, j: int| 0 <= i < j < u.stack.len() implies num(
            u.order,
            #[trigger] u.stack[i],
        ) < num(u.order, #[trigger] u.stack[j]) by {
            assert(t.stack.contains(t.stack[i]));
            assert(t.order.contains(t.stack[i]));
            num_stays(t.order, u.order, t.stack[i]);
            num_is_position(t.order, t.stack[i]);
            if j < t.stack.len() {
                assert(t.stack.contains(t.stack[j]));
                num_stays(t.order, u.order, t.stack[j]);
                assert(num(t.order, t.stack[i]) < num(t.order, t.stack[j]));
            } else {
                num_at(u.order, t.order.len() as int);
            }
        }
    }
    assert(active_links(g, u, active1)) by {
        assert forall|i: int| 0 <= i < active1.len() implies u.stack.contains(
            #[trigger] active1[i],
        ) by {
            crate::seqs::push_contains(t.stack, x, active1[i]);
            if i < active.len() {
                assert(active1[i] == active[i]);
            }
        }
        assert forall|y: Seq<char>, z: Seq<char>|
            u.order.contains(y) && !active1.contains(y) && #[trigger] edge(
                g,
                y,
                z,
            ) implies u.order.contains(z) by {
            crate::seqs::push_contains(t.order, x, y);
            crate::seqs::push_contains(t.order, x, z);
            crate::seqs::push_contains(active, x, y);
        }
        assert forall|i: int, j: int| 0 <= i <= j < u.stack.len() implies reaches(
            g,
            #[trigger] u.stack[i],
            #[trigger] u.stack[j],
        ) by {
            if j < t.stack.len() {
                assert(reaches(g, t.stack[i], t.stack[j]));
            } else if i == j {
                reaches_self(g, x);
            } else {
                assert(leads_to_active(g, t.stack, active, i));
                let k = choose|k: int|
                    0 <= k <= i && active.contains(#[trigger] t.stack[k]) && reaches(
                        g,
                        t.stack[i],
                        t.stack[k],
                    );
                let a = active.index_of(t.stack[k]);
                assert(reaches(g, active[a], x));
                reaches_through(g, t.stack[i], t.stack[k], x);
            }
        }
        assert forall|j: int| 0 <= j < u.stack.len() implies #[trigger] leads_to_active(
            g,
            u.stack,
            active1,
            j,
        ) by {
            if j < t.stack.len() {
                assert(leads_to_active(g, t.stack, active, j));
                let k = choose|k: int|
                    0 <= k <= j && active.contains(#[trigger] t.stack[k]) && reaches(
                        g,
                        t.stack[j],
                        t.stack[k],
                    );
                crate::seqs::push_contains(active, x, t.stack[k]);
                assert(u.stack[k] == t.stack[k]);
            } else {
                crate::seqs::push_contains(active, x, x);
                reaches_self(g, x);
                assert(u.stack[j] == x);
            }
        }
    }
}

/// The module on top of the active ones leads to one below it: it stays on the
/// stack and is active no longer.
proof fn leave_on_stack(
    g: Adjacency,
    nodes: Set<Seq<char>>,
    t: Progress,
    active: Seq<Seq<char>>,
    p: int,
    q: int,
)
    requires
        0 <= q < p < t.stack.len(),
        search_inv(g, nodes, t, active.push(t.stack[p])),
        !active.contains(t.stack[p]),
        forall|y: Seq<char>| #[trigger] edge(g, t.stack[p], y) ==> t.order.contains(y),
        reaches(g, t.stack[p], t.stack[q]),
    ensures
        search_inv(g, nodes, t, active),
{
    let x = t.stack[p];
    let active1 = active.push(x);
    assert forall|i: int| 0 <= i < active.len() implies t.stack.contains(#[trigger] active[i]) by {
        assert(active1[i] == active[i]);
        assert(t.stack.contains(active1[i]));
    }
    assert forall|y: Seq<char>, z: Seq<char>|
        t.order.contains(y) && !active.contains(y) && #[trigger] edge(
            g,
            y,
            z,
        ) implies t.order.contains(z) by {
        crate::seqs::push_contains(active, x, y);
    }
    // `x` leads below itself, and there to an active module.
    assert(leads_to_active(g, t.stack, active1, q));
    let kq = choose|k: int|
        0 <= k <= q && active1.contains(#[trigger] t.stack[k]) && reaches(
            g,
            t.stack[q],
            t.stack[k],
        );
    crate::seqs::push_contains(active, x, t.stack[kq]);
    assert(active.contains(t.stack[kq]));
    reaches_through(g, x, t.stack[q], t.stack[kq]);
    assert forall|j: int| 0 <= j < t.stack.len() implies #[trigger] leads_to_active(
        g,
        t.stack,
        active,
        j,
    ) by {
        assert(leads_to_active(g, t.stack, active1, j));
        let k = choose|k: int|
            0 <= k <= j && active1.contains(#[trigger] t.stack[k]) && reaches(
                g,
                t.stack[j],
                t.stack[k],
            );
        crate::seqs::push_contains(active, x, t.stack[k]);
        if !active.contains(t.stack[k]) {
            assert(k == p);
            reaches_through(g, t.stack[j], x, t.stack[kq]);
            assert(active.contains(t.stack[kq]));
        }
    }
}

/// Following edges, nothing leads out of the components that have been found.
proof fn components_are_closed(
    g: Adjacency,
    comps: Seq<Seq<Seq<char>>>,
    a: Seq<char>,
    b: Seq<char>,
)
    requires
        dependencies_first(g, comps),
        in_component(comps, a),
        reaches(g, a, b),
    ensures
        in_component(comps, b),
{
    if !in_component(comps, b) {
        let within = Set::new(|x: Seq<char>| in_component(comps, x));
        let (x, y) = path_leaves(g, within, a, b);
        let i = choose|i: int| 0 <= i < comps.len() && (#[trigger] comps[i]).contains(x);
        assert(in_component(comps.take(i + 1), y));
        let j = choose|j: int|
            0 <= j < comps.take(i + 1).len() && (#[trigger] comps.take(i + 1)[j]).contains(y);
        assert(comps[j].contains(y));
        assert(false);
    }
}

/// Nothing above `p` on the stack leads below it: what reaches from there stays
/// there or is in a component.
proof fn segment_is_closed(
    g: Adjacency,
    nodes: Set<Seq<char>>,
    t: Progress,
    active: Seq<Seq<char>>,
    p: int,
    u: Seq<char>,
    w: Seq<char>,
)
    requires
        0 <= p < t.stack.len(),
        search_inv(g, nodes, t, active.push(t.stack[p])),
        forall|y: Seq<char>| #[trigger] edge(g, t.stack[p], y) ==> t.order.contains(y),
        forall|k: int, y: Seq<char>|
            #![trigger edge(g, t.stack[k], y)]
            p <= k < t.stack.len() && edge(g, t.stack[k], y) ==> !t.stack.take(p).contains(y),
        forall|k: int|
            p < k < t.stack.len() ==> !active.push(t.stack[p]).contains(#[trigger] t.stack[k]),
        t.stack.skip(p).contains(u),
        reaches(g, u, w),
    ensures
        t.stack.skip(p).contains(w) || in_component(t.comps, w),
{
    let seg = t.stack.skip(p);
    let x = t.stack[p];
    if !seg.contains(w) && !in_component(t.comps, w) {
        let within = Set::new(|y: Seq<char>| seg.contains(y));
        let (a, b) = path_leaves(g, within, u, w);
        let ka = seg.index_of(a);
        assert(t.stack[p + ka] == a);
        assert(t.stack.contains(a));
        assert(t.order.contains(a));
        if ka == 0 {
            assert(a == x);
        } else {
            assert(!active.push(x).contains(t.stack[p + ka]));
        }
        assert(t.order.contains(b));
        assert(edge(g, t.stack[p + ka], b));
        assert(!t.stack.take(p).contains(b));
        if t.stack.contains(b) {
            let kb = t.stack.index_of(b);
            if kb < p {
                assert(t.stack.take(p)[kb] == b);
            } else {
                assert(seg[kb - p] == b);
            }
        }
        assert(in_component(t.comps, b));
        components_are_closed(g, t.comps, b, w);
    }
}

/// The modules from `p` up on the stack are a component when nothing of them
/// leads below.
proof fn close_component(
    g: Adjacency,
    nodes: Set<Seq<char>>,
    t: Progress,
    active: Seq<Seq<char>>,
    p: int,
    comp: Seq<Seq<char>>,
)
    requires
        0 <= p < t.stack.len(),
        search_inv(g, nodes, t, active.push(t.stack[p])),
        forall|i: int| 0 <= i < active.len() ==> t.stack.take(p).contains(#[trigger] active[i]),
        forall|y: Seq<char>| #[trigger] edge(g, t.stack[p], y) ==> t.order.contains(y),
        forall|k: int, y: Seq<char>|
            #![trigger edge(g, t.stack[k], y)]
            p <= k < t.stack.len() && edge(g, t.stack[k], y) ==> !t.stack.take(p).contains(y),
        lists_in_order(comp, t.stack.skip(p).to_set()),
    ensures
        search_inv(
            g,
            nodes,
            Progress { stack: t.stack.take(p), comps: t.comps.push(comp), ..t },
            active,
        ),
{
    let x = t.stack[p];
    let seg = t.stack.skip(p);
    let low = t.stack.take(p);
    let active1 = active.push(x);
    let after = Progress { stack: low, comps: t.comps.push(comp), ..t };
    assert(seg[0] == x);
    assert(seg.contains(x));
    assert forall|y: Seq<char>| #[trigger] comp.contains(y) <==> seg.contains(y) by {
        assert(comp.contains(y) <==> seg.to_set().contains(y));
    }
    assert forall|k: int| p < k < t.stack.len() implies !active1.contains(#[trigger] t.stack[k]) by {
        crate::seqs::push_contains(active, x, t.stack[k]);
        if active.contains(t.stack[k]) {
            let a = active.index_of(t.stack[k]);
            assert(low.contains(active[a]));
            let l = low.index_of(active[a]);
            assert(t.stack[l] == t.stack[k]);
        }
    }
    // Every module of the segment leads back to `x`.
    assert forall|y: Seq<char>| #[trigger] seg.contains(y) implies mutual(g, x, y) by {
        let j = p + seg.index_of(y);
        assert(t.stack[j] == y);
        assert(reaches(g, t.stack[p], t.stack[j]));
        assert(leads_to_active(g, t.stack, active1, j));
        let k = choose|k: int|
            0 <= k <= j && active1.contains(#[trigger] t.stack[k]) && reaches(
                g,
                t.stack[j],
                t.stack[k],
            );
        if k < p {
            segment_is_closed(g, nodes, t, active, p, y, t.stack[k]);
            assert(t.stack.contains(t.stack[k]));
            assert(seg.contains(t.stack[k]));
            let m = seg.index_of(t.stack[k]);
            assert(t.stack[p + m] == t.stack[k]);
            assert(false);
        } else if k > p {
            assert(!active1.contains(t.stack[k]));
        }
    }
    assert forall|y: Seq<char>| mutual(g, x, y) implies #[trigger] seg.contains(y) by {
        segment_is_closed(g, nodes, t, active, p, x, y);
        if in_component(t.comps, y) {
            components_are_closed(g, t.comps, y, x);
            assert(t.stack.contains(x));
        }
    }
    let n = t.comps.len() as int;
    assert(after.comps[n] == comp);
    assert forall|i: int| 0 <= i < n implies after.comps[i] == t.comps[i] by {}
    assert(are_classes(g, after.comps)) by {
        assert(comp.contains(x));
        assert(comp.len() > 0);
        assert(comp.to_set() =~= seg.to_set());
        assert forall|i: int, y: Seq<char>, z: Seq<char>|
            #![trigger after.comps[i].contains(y), after.comps[i].contains(z)]
            0 <= i < after.comps.len() && after.comps[i].contains(y) implies (
        after.comps[i].contains(z) <==> mutual(g, y, z)) by {
            if i < n {
                assert(t.comps[i].contains(y));
                assert(t.comps[i].contains(z) <==> mutual(g, y, z));
            } else {
                assert(seg.contains(y));
                assert(mutual(g, x, y));
                if seg.contains(z) {
                    assert(mutual(g, x, z));
                    reaches_through(g, y, x, z);
                    reaches_through(g, z, x, y);
                }
                if mutual(g, y, z) {
                    reaches_through(g, x, y, z);
                    reaches_through(g, z, y, x);
                    assert(mutual(g, x, z));
                    assert(seg.contains(z));
                }
            }
        }
    }
    assert forall|y: Seq<char>| seg.contains(y) implies !#[trigger] in_component(t.comps, y) by {
        let j = p + seg.index_of(y);
        assert(t.stack[j] == y);
        assert(t.stack.contains(y));
    }
    assert(are_disjoint(after.comps)) by {
        assert forall|i: int, j: int, y: Seq<char>|
            #![trigger after.comps[i].contains(y), after.comps[j].contains(y)]
            0 <= i < after.comps.len() && 0 <= j < after.comps.len() && after.comps[i].contains(y)
                && after.comps[j].contains(y) implies i == j by {
            if i < n && j < n {
                assert(t.comps[i].contains(y) && t.comps[j].contains(y));
            } else if i < n {
                assert(t.comps[i].contains(y));
                assert(in_component(t.comps, y));
                assert(seg.contains(y));
            } else if j < n {
                assert(t.comps[j].contains(y));
                assert(in_component(t.comps, y));
                assert(seg.contains(y));
            }
        }
    }
    assert(dependencies_first(g, after.comps)) by {
        assert forall|i: int, y: Seq<char>, z: Seq<char>|
            #![trigger after.comps[i].contains(y), edge(g, y, z)]
            0 <= i < after.comps.len() && after.comps[i].contains(y) && edge(
                g,
                y,
                z,
            ) implies in_component(after.comps.take(i + 1), z) by {
            if i < n {
                assert(t.comps[i].contains(y));
                assert(after.comps.take(i + 1) =~= t.comps.take(i + 1));
            } else {
                assert(after.comps.take(i + 1) =~= after.comps);
                assert(seg.contains(y));
                reaches_edge(g, y, z);
                segment_is_closed(g, nodes, t, active, p, y, z);
                if seg.contains(z) {
                    assert(after.comps[n].contains(z));
                } else {
                    let j = choose|j: int|
                        0 <= j < t.comps.len() && (#[trigger] t.comps[j]).contains(z);
                    assert(after.comps[j].contains(z));
                }
            }
        }
    }
    assert(bookkeeping(nodes, after)) by {
        assert forall|i: int, j: int|
            0 <= i < low.len() && 0 <= j < low.len() && i != j implies low[i] != low[j] by {
            assert(low[i] == t.stack[i] && low[j] == t.stack[j]);
        }
        assert forall|y: Seq<char>| #[trigger]
            after.order.contains(y) <==> low.contains(y) || in_component(after.comps, y) by {
            assert(t.order.contains(y) <==> t.stack.contains(y) || in_component(t.comps, y));
            if t.stack.contains(y) {
                let j = t.stack.index_of(y);
                if j < p {
                    assert(low[j] == y);
                } else {
                    assert(seg[j - p] == y);
                    assert(after.comps[n].contains(y));
                }
            }
            if in_component(t.comps, y) {
                let j = choose|j: int| 0 <= j < t.comps.len() && (#[trigger] t.comps[j]).contains(y);
                assert(after.comps[j].contains(y));
            }
            if low.contains(y) {
                assert(t.stack[low.index_of(y)] == y);
            }
            if in_component(after.comps, y) {
                let j = choose|j: int|
                    0 <= j < after.comps.len() && (#[trigger] after.comps[j]).contains(y);
                if j < n {
                    assert(t.comps[j].contains(y));
                } else {
                    assert(seg.contains(y));
                    assert(t.stack[p + seg.index_of(y)] == y);
                }
            }
        }
        assert forall|y: Seq<char>| #[trigger] low.contains(y) implies !in_component(
            after.comps,
            y,
        ) by {
            let l = low.index_of(y);
            assert(t.stack[l] == y);
            assert(t.stack.contains(y));
            if in_component(after.comps, y) {
                let j = choose|j: int|
                    0 <= j < after.comps.len() && (#[trigger] after.comps[j]).contains(y);
                if j < n {
                    assert(t.comps[j].contains(y));
                    assert(in_component(t.comps, y));
                } else {
                    assert(seg.contains(y));
                    assert(t.stack[p + seg.index_of(y)] == y);
                }
            }
        }
        assert forall|i: int, j: int| 0 <= i < j < low.len() implies num(
            t.order,
            #[trigger] low[i],
        ) < num(t.order, #[trigger] low[j]) by {
            assert(low[i] == t.stack[i] && low[j] == t.stack[j]);
        }
    }
    assert(active_links(g, after, active)) by {
        assert forall|y: Seq<char>, z: Seq<char>|
            after.order.contains(y) && !active.contains(y) && #[trigger] edge(
                g,
                y,
                z,
            ) implies after.order.contains(z) by {
            crate::seqs::push_contains(active, x, y);
        }
        assert forall|i: int, j: int| 0 <= i <= j < low.len() implies reaches(
            g,
            #[trigger] low[i],
            #[trigger] low[j],
        ) by {
            assert(low[i] == t.stack[i] && low[j] == t.stack[j]);
        }
        assert forall|j: int| 0 <= j < low.len() implies #[trigger] leads_to_active(
            g,
            low,
            active,
            j,
        ) by {
            assert(low[j] == t.stack[j]);
            assert(leads_to_active(g, t.stack, active1, j));
            let k = choose|k: int|
                0 <= k <= j && active1.contains(#[trigger] t.stack[k]) && reaches(
                    g,
                    t.stack[j],
                    t.stack[k],
                );
            crate::seqs::push_contains(active, x, t.stack[k]);
            assert(low[k] == t.stack[k]);
        }
    }
}

/// The dependencies of a module as a set.
pub open spec fn dependency_set(g: Adjacency, module: Seq<char>) -> Set<Seq<char>> {
    if g.dom().contains(module) {
        g[module].to_set()
    } else {
        Set::empty()
    }
}

/// The dependencies of a module, each once and in order.
pub fn sorted_dependencies(adjacency: &Table<String, Vec<String>>, module: &str) -> (r: Vec<String>)
    ensures
        lists_in_order(r.deep_view(), dependency_set(adjacency.deep_view(), module@)),
{
    match adjacency.named(module) {
        Some(dependencies) => ordered_set(dependencies),
        None => {
            let none: Vec<String> = Vec::new();
            assert(none.deep_view() =~= Seq::empty());
            none
        },
    }
}

/// Some module on the stack that was met as number `low` is reached from `x`.
spec fn low_is_reached(g: Adjacency, t: Progress, x: Seq<char>, low: int) -> bool {
    exists|y: Seq<char>| #[trigger]
        t.stack.contains(y) && num(t.order, y) == low && reaches(g, x, y)
}

/// No module from `p` up on the stack depends directly on one of `below` that
/// was met before number `low`.
spec fn low_bounds_edges(
    g: Adjacency,
    t: Progress,
    p: int,
    below: Seq<Seq<char>>,
    low: int,
) -> bool {
    forall|k: int, w: Seq<char>|
        #![trigger edge(g, t.stack[k], w)]
        p <= k < t.stack.len() && below.contains(w) && edge(g, t.stack[k], w) ==> low <= num(
            t.order,
            w,
        )
}

/// What following one module does to the progress.
spec fn advanced(
    g: Adjacency,
    before: Progress,
    after: Progress,
    x: Seq<char>,
    low: int,
) -> bool {
    &&& before.order.push(x).is_prefix_of(after.order)
    &&& before.stack.is_prefix_of(after.stack)
    &&& before.comps.is_prefix_of(after.comps)
    &&& 0 <= low <= before.order.len()
    &&& low < before.order.len() ==> low_is_reached(g, after, x, low)
    &&& low_bounds_edges(g, after, before.stack.len() as int, before.stack, low)
}

proof fn prefix_of_push(a: Seq<Seq<char>>, x: Seq<char>, b: Seq<Seq<char>>)
    requires
        a.push(x).is_prefix_of(b),
    ensures
        a.is_prefix_of(b),
        b.contains(x),
        b[a.len() as int] == x,
{
    assert(a.push(x) =~= b.subrange(0, (a.len() + 1) as int));
    assert(a.push(x)[a.len() as int] == b.subrange(0, (a.len() + 1) as int)[a.len() as int]);
    assert(a =~= b.subrange(0, a.len() as int)) by {
        assert forall|i: int| 0 <= i < a.len() implies a[i] == b[i] by {
            assert(a.push(x)[i] == b.subrange(0, (a.len() + 1) as int)[i]);
        }
    }
}

proof fn prefix_through<A>(a: Seq<A>, b: Seq<A>, c: Seq<A>)
    requires
        a.is_prefix_of(b),
        b.is_prefix_of(c),
    ensures
        a.is_prefix_of(c),
{
    assert(a =~= c.subrange(0, a.len() as int)) by {
        assert forall|i: int| 0 <= i < a.len() implies a[i] == c[i] by {
            assert(a[i] == b.subrange(0, a.len() as int)[i]);
            assert(b[i] == c.subrange(0, b.len() as int)[i]);
        }
    }
}

/// Only so many modules can have been met.
proof fn order_is_bounded(nodes: Set<Seq<char>>, t: Progress)
    requires
        nodes.finite(),
        bookkeeping(nodes, t),
    ensures
        t.order.len() <= nodes.len(),
{
    t.order.unique_seq_to_set();
    assert(t.order.to_set().subset_of(nodes));
    vstd::set_lib::lemma_len_subset(t.order.to_set(), nodes);
}

proof fn order_is_bounded_before(nodes: Set<Seq<char>>, t: Progress, x: Seq<char>)
    requires
        nodes.finite(),
        bookkeeping(nodes, t),
        nodes.contains(x),
        !t.order.contains(x),
    ensures
        t.order.len() < nodes.len(),
{
    t.order.unique_seq_to_set();
    let met = t.order.to_set().insert(x);
    assert(met.subset_of(nodes));
    vstd::set_lib::lemma_len_subset(met, nodes);
}

/// Where `x` was met, as a number.
fn position_in(order: &Vec<String>, x: &String) -> (r: usize)
    requires
        order.deep_view().no_duplicates(),
        order.deep_view().contains(x@),
    ensures
        r == num(order.deep_view(), x@),
        r < order.len(),
{
    let mut i: usize = 0;
    while i < order.len()
        invariant
            i <= order.len(),
            order.deep_view().no_duplicates(),
            order.deep_view().contains(x@),
            forall|j: int| 0 <= j < i ==> order.deep_view()[j] != x@,
        decreases order.len() - i,
    {
        if order[i] == *x {
            proof {
                num_at(order.deep_view(), i as int);
            }
            return i;
        }
        i = i + 1;
    }
    proof {
        assert(order.deep_view()[order.deep_view().index_of(x@)] == x@);
        assert(false);
    }
    0
}

/// A dependency that is on the stack.
proof fn low_through_stack(
    g: Adjacency,
    nodes: Set<Seq<char>>,
    t: Progress,
    active: Seq<Seq<char>>,
    x: Seq<char>,
    d: Seq<char>,
)
    requires
        search_inv(g, nodes, t, active),
        edge(g, x, d),
        t.stack.contains(d),
    ensures
        low_is_reached(g, t, x, num(t.order, d)),
{
    reaches_edge(g, x, d);
}

/// A dependency that has just been followed.
proof fn low_through_call(
    g: Adjacency,
    nodes: Set<Seq<char>>,
    before: Progress,
    after: Progress,
    active: Seq<Seq<char>>,
    x: Seq<char>,
    p: int,
    below: Seq<Seq<char>>,
    d: Seq<char>,
    low: int,
    low_d: int,
)
    requires
        search_inv(g, nodes, before, active),
        search_inv(g, nodes, after, active),
        advanced(g, before, after, d, low_d),
        edge(g, x, d),
        before.order.contains(x),
        0 <= low <= num(before.order, x),
        below.is_prefix_of(before.stack),
        0 <= p <= before.stack.len(),
        low_is_reached(g, before, x, low),
        low_bounds_edges(g, before, p, below, low),
    ensures
        ({
            let least = if low_d < low {
                low_d
            } else {
                low
            };
            &&& low_is_reached(g, after, x, least)
            &&& low_bounds_edges(g, after, p, below, least)
        }),
{
    let least = if low_d < low {
        low_d
    } else {
        low
    };
    prefix_of_push(before.order, d, after.order);
    num_is_position(before.order, x);
    reaches_edge(g, x, d);
    if low_d < low {
        assert(low_d < before.order.len());
        let y = choose|y: Seq<char>| #[trigger]
            after.stack.contains(y) && num(after.order, y) == low_d && reaches(g, d, y);
        reaches_through(g, x, d, y);
        assert(low_is_reached(g, after, x, low_d));
    } else {
        let y = choose|y: Seq<char>| #[trigger]
            before.stack.contains(y) && num(before.order, y) == low && reaches(g, x, y);
        prefix_contains(before.stack, after.stack, y);
        assert(before.order.contains(y));
        num_stays(before.order, after.order, y);
        assert(low_is_reached(g, after, x, low));
    }
    assert forall|k: int, w: Seq<char>|
        #![trigger edge(g, after.stack[k], w)]
        p <= k < after.stack.len() && below.contains(w) && edge(
            g,
            after.stack[k],
            w,
        ) implies least <= num(after.order, w) by {
        prefix_contains(below, before.stack, w);
        if k < before.stack.len() {
            assert(after.stack[k] == before.stack[k]) by {
                assert(before.stack[k] == after.stack.subrange(0, before.stack.len() as int)[k]);
            }
            assert(edge(g, before.stack[k], w));
            assert(low <= num(before.order, w));
            assert(before.order.contains(w));
            num_stays(before.order, after.order, w);
        } else {
            assert(low_d <= num(after.order, w));
        }
    }
}

impl TarjanState {
    pub fn new() -> (r: Self)
        ensures
            r@ == (Progress { order: Seq::empty(), stack: Seq::empty(), comps: Seq::empty() }),
    {
        let r = TarjanState { order: Vec::new(), stack: Vec::new(), components: Vec::new() };
        assert(r@ =~= (Progress { order: Seq::empty(), stack: Seq::empty(), comps: Seq::empty() }));
        r
    }

    /// Follows the dependencies of a module that has not been met, and gives
    /// the number of the first module met that is on the stack and that the
    /// module leads back to.
    #[verifier::rlimit(40)]
    fn connect(
        &mut self,
        adjacency: &Table<String, Vec<String>>,
        module: String,
        Ghost(nodes): Ghost<Set<Seq<char>>>,
        Ghost(active): Ghost<Seq<Seq<char>>>,
    ) -> (low: usize)
        requires
            search_inv(adjacency.deep_view(), nodes, old(self)@, active),
            nodes.contains(module@),
            !old(self)@.order.contains(module@),
            forall|i: int|
                0 <= i < active.len() ==> reaches(
                    adjacency.deep_view(),
                    #[trigger] active[i],
                    module@,
                ),
        ensures
            search_inv(adjacency.deep_view(), nodes, final(self)@, active),
            advanced(adjacency.deep_view(), old(self)@, final(self)@, module@, low as int),
        decreases nodes.len() - old(self)@.order.len(),
    {
        let ghost g = adjacency.deep_view();
        let ghost start = self@;
        let ghost x = module@;
        let ghost p = start.stack.len() as int;
        let ghost active1 = active.push(x);
        let index = self.order.len();
        let place = self.stack.len();
        proof {
            order_is_bounded_before(nodes, start, x);
            meet(g, nodes, start, active, x);
        }
        push_value(&mut self.order, module.clone());
        push_value(&mut self.stack, module.clone());
        let mut low = index;
        let dependencies = sorted_dependencies(adjacency, module.as_str());
        let ghost ds = dependencies.deep_view();
        let mut i: usize = 0;
        proof {
            let t = self@;
            assert(t =~= (Progress {
                order: start.order.push(x),
                stack: start.stack.push(x),
                ..start
            }));
            num_at(t.order, index as int);
            assert(t.order[index as int] == x);
            assert(t.stack[p] == x);
            assert(t.stack.contains(x));
            reaches_self(g, x);
            assert(low_is_reached(g, t, x, low as int));
            assert(start.order.push(x) =~= t.order.subrange(0, t.order.len() as int));
            assert(start.stack.push(x) =~= t.stack.subrange(0, t.stack.len() as int));
            assert(start.comps =~= t.comps.subrange(0, start.comps.len() as int));
            assert(!start.stack.contains(x)) by {
                assert(start.order.contains(x) <==> start.stack.contains(x) || in_component(
                    start.comps,
                    x,
                ));
            }
        }
        while i < dependencies.len()
            invariant
                i <= dependencies.len(),
                ds == dependencies.deep_view(),
                g == adjacency.deep_view(),
                x == module@,
                index == start.order.len(),
                place == p,
                p == start.stack.len(),
                active1 == active.push(x),
                start == old(self)@,
                !start.stack.contains(x),
                !start.order.contains(x),
                start.order.len() < nodes.len(),
                forall|j: int| 0 <= j < active.len() ==> reaches(g, #[trigger] active[j], x),
                lists_in_order(ds, dependency_set(g, x)),
                search_inv(g, nodes, self@, active1),
                start.order.push(x).is_prefix_of(self@.order),
                start.stack.push(x).is_prefix_of(self@.stack),
                start.comps.is_prefix_of(self@.comps),
                low <= index,
                low_is_reached(g, self@, x, low as int),
                low_bounds_edges(g, self@, p + 1, start.stack, low as int),
                forall|j: int| 0 <= j < i ==> self@.order.contains(#[trigger] ds[j]),
                forall|j: int|
                    0 <= j < i && start.stack.contains(#[trigger] ds[j]) ==> low <= num(
                        self@.order,
                        ds[j],
                    ),
            decreases dependencies.len() - i,
        {
            let dependency = dependencies[i].clone();
            let ghost d = ds[i as int];
            let ghost here = self@;
            proof {
                assert(ds.contains(d));
                assert(dependency_set(g, x).contains(d));
                assert(edge(g, x, d));
                assert(nodes.contains(d));
                prefix_of_push(start.order, x, here.order);
                prefix_of_push(start.stack, x, here.stack);
                num_at(here.order, index as int);
            }
            if !contains_value(&self.order, &dependency) {
                proof {
                    assert forall|j: int| 0 <= j < active1.len() implies reaches(
                        g,
                        #[trigger] active1[j],
                        d,
                    ) by {
                        reaches_edge(g, x, d);
                        if j < active.len() {
                            assert(active1[j] == active[j]);
                            reaches_through(g, active[j], x, d);
                        }
                    }
                    order_is_bounded(nodes, here);
                }
                let low_d = self.connect(adjacency, dependency, Ghost(nodes), Ghost(active1));
                proof {
                    low_through_call(
                        g,
                        nodes,
                        here,
                        self@,
                        active1,
                        x,
                        p + 1,
                        start.stack,
                        d,
                        low as int,
                        low_d as int,
                    );
                    prefix_of_push(here.order, d, self@.order);
                    prefix_through(start.order.push(x), here.order, self@.order);
                    prefix_through(start.stack.push(x), here.stack, self@.stack);
                    prefix_through(start.comps, here.comps, self@.comps);
                    assert forall|j: int| 0 <= j < i + 1 implies self@.order.contains(
                        #[trigger] ds[j],
                    ) by {
                        if j < i {
                            prefix_contains(here.order, self@.order, ds[j]);
                        }
                    }
                    let least = if low_d < low {
                        low_d
                    } else {
                        low
                    };
                    assert forall|j: int|
                        0 <= j < i + 1 && start.stack.contains(#[trigger] ds[j]) implies least
                        <= num(self@.order, ds[j]) by {
                        prefix_contains(start.stack, here.stack, ds[j]);
                        assert(here.order.contains(ds[j]));
                        num_stays(here.order, self@.order, ds[j]);
                    }
                }
                if low_d < low {
                    low = low_d;
                }
            } else {
                if contains_value(&self.stack, &dependency) {
                    let number = position_in(&self.order, &dependency);
                    proof {
                        low_through_stack(g, nodes, here, active1, x, d);
                    }
                    if number < low {
                        low = number;
                    }
                }
                proof {
                    assert forall|j: int|
                        0 <= j < i + 1 && start.stack.contains(#[trigger] ds[j]) implies low <= num(
                        self@.order,
                        ds[j],
                    ) by {
                        prefix_contains(start.stack, here.stack, ds[j]);
                    }
                }
            }
            i = i + 1;
        }
        let ghost t = self@;
        proof {
            prefix_of_push(start.order, x, t.order);
            prefix_of_push(start.stack, x, t.stack);
            num_at(t.order, index as int);
            assert(t.stack.take(p) =~= start.stack) by {
                assert(start.stack =~= t.stack.subrange(0, p));
            }
            assert forall|y: Seq<char>| #[trigger] edge(g, x, y) implies t.order.contains(y) by {
                assert(dependency_set(g, x).contains(y));
                assert(ds.contains(y));
                let j = ds.index_of(y);
                assert(t.order.contains(ds[j]));
            }
            assert forall|k: int, w: Seq<char>|
                #![trigger edge(g, t.stack[k], w)]
                p <= k < t.stack.len() && start.stack.contains(w) && edge(
                    g,
                    t.stack[k],
                    w,
                ) implies low <= num(t.order, w) by {
                if k == p {
                    assert(dependency_set(g, x).contains(w));
                    assert(ds.contains(w));
                    let j = ds.index_of(w);
                    assert(start.stack.contains(ds[j]));
                }
            }
            assert(low_bounds_edges(g, t, p, start.stack, low as int));
            assert forall|i: int| 0 <= i < active.len() implies start.stack.contains(
                #[trigger] active[i],
            ) by {
                assert(start.stack.contains(active[i]));
            }
            assert(!active.contains(x)) by {
                if active.contains(x) {
                    assert(start.stack.contains(active[active.index_of(x)]));
                }
            }
        }
        if low == index {
            let members = self.stack.split_off(place);
            proof {
                assert(members.deep_view() =~= t.stack.skip(p));
                assert forall|k: int, y: Seq<char>|
                    #![trigger edge(g, t.stack[k], y)]
                    p <= k < t.stack.len() && edge(
                        g,
                        t.stack[k],
                        y,
                    ) implies !t.stack.take(p).contains(y) by {
                    if start.stack.contains(y) {
                        assert(low <= num(t.order, y));
                        assert(start.order.contains(y));
                        num_stays(start.order, t.order, y);
                        num_is_position(start.order, y);
                    }
                }
            }
            let modules = ordered_set(&members);
            proof {
                close_component(g, nodes, t, active, p, modules.deep_view());
            }
            push_value(&mut self.components, ModuleScc { modules });
            proof {
                let after = Progress {
                    stack: t.stack.take(p),
                    comps: t.comps.push(modules.deep_view()),
                    ..t
                };
                assert(self@.stack =~= after.stack);
                assert(self@ =~= after);
                assert(start.stack =~= after.stack.subrange(0, start.stack.len() as int));
                prefix_through(start.comps, t.comps, after.comps);
            }
        } else {
            proof {
                let y = choose|y: Seq<char>| #[trigger]
                    t.stack.contains(y) && num(t.order, y) == low && reaches(g, x, y);
                let q = t.stack.index_of(y);
                assert(t.stack[q] == y);
                if q >= p {
                    if q > p {
                        assert(num(t.order, t.stack[p]) < num(t.order, t.stack[q]));
                    }
                    assert(false);
                }
                leave_on_stack(g, nodes, t, active, p, q);
            }
        }
        low
    }
}

/// The strongly connected components of a graph whose modules are `modules`,
/// dependencies first.
pub fn find_components(adjacency: &Table<String, Vec<String>>, modules: &Vec<String>) -> (r: Vec<
    ModuleScc,
>)
    requires
        forall|x: Seq<char>|
            #[trigger] modules.deep_view().contains(x) <==> is_module(adjacency.deep_view(), x),
    ensures
        are_classes(adjacency.deep_view(), r.deep_view()),
        are_disjoint(r.deep_view()),
        dependencies_first(adjacency.deep_view(), r.deep_view()),
        forall|x: Seq<char>|
            #[trigger] in_component(r.deep_view(), x) <==> is_module(adjacency.deep_view(), x),
{
    let ghost g = adjacency.deep_view();
    let ghost ms = modules.deep_view();
    let ghost nodes = ms.to_set();
    let ghost none = Seq::<Seq<char>>::empty();
    let mut state = TarjanState::new();
    let mut i: usize = 0;
    proof {
        vstd::seq_lib::seq_to_set_is_finite(ms);
        assert forall|a: Seq<char>, b: Seq<char>| #[trigger] edge(g, a, b) implies nodes.contains(
            b,
        ) by {
            assert(is_module(g, b));
            assert(ms.contains(b));
        }
        assert(search_inv(g, nodes, state@, none)) by {
            assert(bookkeeping(nodes, state@));
            assert(active_links(g, state@, none));
        }
    }
    while i < modules.len()
        invariant
            i <= modules.len(),
            g == adjacency.deep_view(),
            ms == modules.deep_view(),
            nodes == ms.to_set(),
            none == Seq::<Seq<char>>::empty(),
            search_inv(g, nodes, state@, none),
            forall|j: int| 0 <= j < i ==> state@.order.contains(#[trigger] ms[j]),
        decreases modules.len() - i,
    {
        let ghost here = state@;
        let module = modules[i].clone();
        assert(ms.contains(ms[i as int]));
        if !contains_value(&state.order, &module) {
            let _low = state.connect(adjacency, module, Ghost(nodes), Ghost(none));
            proof {
                prefix_of_push(here.order, ms[i as int], state@.order);
                assert forall|j: int| 0 <= j < i + 1 implies state@.order.contains(
                    #[trigger] ms[j],
                ) by {
                    if j < i {
                        prefix_contains(here.order, state@.order, ms[j]);
                    }
                }
            }
        }
        i = i + 1;
    }
    proof {
        let t = state@;
        assert(t.stack.len() == 0) by {
            if t.stack.len() > 0 {
                assert(leads_to_active(g, t.stack, none, 0));
            }
        }
        assert forall|x: Seq<char>| #[trigger] in_component(t.comps, x) <==> is_module(g, x) by {
            if is_module(g, x) {
                assert(ms.contains(x));
                assert(t.order.contains(ms[ms.index_of(x)]));
                assert(!t.stack.contains(x));
            }
            if in_component(t.comps, x) {
                assert(t.order.contains(x));
                let k = t.order.index_of(x);
                assert(nodes.contains(t.order[k]));
                assert(ms.contains(x));
            }
        }
    }
    state.components
}

} // verus!
