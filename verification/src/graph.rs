//! The graph of modules and their imports.

use vstd::prelude::*;
use crate::reachability::{edge, is_module, Adjacency};
use crate::sorting::{insert_in_order, lists_in_order};
use crate::table::{lists, Table};
use crate::tarjan::{
    are_classes, are_disjoint, dependencies_first, find_components, in_component, ModuleScc,
};
use crate::text::{text_at_most, text_le, text_le_total_order};
use crate::values::{contains_value, push_value, Dup};

verus! {

/// Explicit module dependency graph built from import declarations.
pub struct ModuleGraph {
    pub adjacency: Table<String, Vec<String>>,
}

impl View for ModuleGraph {
    type V = Adjacency;

    open spec fn view(&self) -> Adjacency {
        self.adjacency.deep_view()
    }
}

impl DeepView for ModuleGraph {
    type V = Adjacency;

    open spec fn deep_view(&self) -> Adjacency {
        self.adjacency.deep_view()
    }
}

/// The name by which a component is ordered: that of its first module.
pub open spec fn scc_key(modules: Seq<Seq<char>>) -> Seq<char> {
    if modules.len() == 0 {
        Seq::empty()
    } else {
        modules[0]
    }
}

impl ModuleScc {
    pub fn is_cycle(&self) -> (r: bool)
        ensures
            r == (self.deep_view().len() > 1),
    {
        assert(self.modules.deep_view().len() == self.modules.len());
        self.modules.len() > 1
    }

    pub fn sort_key(&self) -> (r: String)
        ensures
            r@ == scc_key(self.deep_view()),
    {
        assert(self.modules.deep_view().len() == self.modules.len());
        if self.modules.len() == 0 {
            String::new()
        } else {
            self.modules[0].clone()
        }
    }
}

/// The modules of `comp` depend on nothing but each other and the modules of
/// the components `emitted`.
pub open spec fn is_ready(
    g: Adjacency,
    comp: Seq<Seq<char>>,
    emitted: Seq<Seq<Seq<char>>>,
) -> bool {
    forall|x: Seq<char>, y: Seq<char>| #[trigger]
        edge(g, x, y) && comp.contains(x) ==> comp.contains(y) || in_component(emitted, y)
}

/// At each place stands the component that comes first by name among those that
/// are ready.
pub open spec fn least_ready_first(g: Adjacency, comps: Seq<Seq<Seq<char>>>) -> bool {
    forall|i: int, j: int|
        #![trigger comps[i], comps[j]]
        0 <= i < j < comps.len() && is_ready(g, comps[j], comps.take(i)) ==> text_le(
            scc_key(comps[i]),
            scc_key(comps[j]),
        )
}

impl ModuleGraph {
    /// The dependencies recorded for a module.
    pub fn dependencies(&self, module: &str) -> (r: Option<&Vec<String>>)
        ensures
            match r {
                Some(deps) => self@.dom().contains(module@) && deps.deep_view() == self@[module@],
                None => !self@.dom().contains(module@),
            },
    {
        self.adjacency.named(module)
    }

    /// All modules that have dependencies or that others depend on, in order.
    pub fn modules(&self) -> (r: Vec<String>)
        ensures
            lists_in_order(r.deep_view(), Set::new(|x: Seq<char>| is_module(self@, x))),
    {
        let ghost g = self@;
        let n = self.adjacency.len();
        let ghost order = self.adjacency.order();
        let mut out: Vec<String> = Vec::new();
        let mut i: usize = 0;
        let ghost mut s = Set::<Seq<char>>::empty();
        proof {
            assert(out.deep_view() =~= Seq::empty());
            assert(lists_in_order(out.deep_view(), s));
        }
        while i < n
            invariant
                i <= n,
                n == order.len(),
                g == self@,
                order == self.adjacency.order(),
                lists(order, g),
                lists_in_order(out.deep_view(), s),
                forall|x: Seq<char>| #[trigger] s.contains(x) ==> is_module(g, x),
                forall|j: int| 0 <= j < i ==> s.contains((#[trigger] order[j]).0),
                forall|j: int, y: Seq<char>|
                    #![trigger order[j].1.contains(y)]
                    0 <= j < i && order[j].1.contains(y) ==> s.contains(y),
            decreases n - i,
        {
            let key = self.adjacency.key(i);
            let dependencies = self.adjacency.value(i);
            insert_in_order(&mut out, key.clone());
            proof {
                s = s.insert(key@);
            }
            let mut k: usize = 0;
            while k < dependencies.len()
                invariant
                    k <= dependencies.len(),
                    i < n,
                    n == order.len(),
                    g == self@,
                    lists(order, g),
                    dependencies.deep_view() == order[i as int].1,
                    lists_in_order(out.deep_view(), s),
                    forall|x: Seq<char>| #[trigger] s.contains(x) ==> is_module(g, x),
                    forall|j: int| 0 <= j < i + 1 ==> s.contains((#[trigger] order[j]).0),
                    forall|j: int, y: Seq<char>|
                        #![trigger order[j].1.contains(y)]
                        0 <= j < i && order[j].1.contains(y) ==> s.contains(y),
                    forall|j: int| 0 <= j < k ==> s.contains(#[trigger] order[i as int].1[j]),
                decreases dependencies.len() - k,
            {
                insert_in_order(&mut out, dependencies[k].clone());
                proof {
                    let y = dependencies@[k as int]@;
                    assert(order[i as int].1[k as int] == y);
                    assert(order[i as int].1.contains(y));
                    assert(edge(g, order[i as int].0, y));
                    s = s.insert(y);
                }
                k = k + 1;
            }
            proof {
                assert forall|j: int, y: Seq<char>|
                    #![trigger order[j].1.contains(y)]
                    0 <= j < i + 1 && order[j].1.contains(y) implies s.contains(y) by {
                    if j == i {
                        let k0 = order[j].1.index_of(y);
                        assert(order[i as int].1[k0] == y);
                    }
                }
            }
            i = i + 1;
        }
        proof {
            let all = Set::new(|x: Seq<char>| is_module(g, x));
            assert forall|x: Seq<char>| s.contains(x) <==> all.contains(x) by {
                if is_module(g, x) {
                    if g.dom().contains(x) {
                        let j = choose|j: int| 0 <= j < order.len() && (#[trigger] order[j]).0 == x;
                        assert(s.contains(order[j].0));
                    } else {
                        let a = choose|a: Seq<char>| #[trigger] edge(g, a, x);
                        let j = choose|j: int| 0 <= j < order.len() && (#[trigger] order[j]).0 == a;
                        assert(order[j].1.contains(x));
                    }
                }
            }
            assert(s =~= all);
        }
        out
    }

    /// The strongly connected components: each lists in order the modules that
    /// depend on each other, each module is in one of them, and what a component
    /// depends on comes before it.
    pub fn strongly_connected_components(&self) -> (r: Vec<ModuleScc>)
        ensures
            are_classes(self@, r.deep_view()),
            are_disjoint(r.deep_view()),
            dependencies_first(self@, r.deep_view()),
            forall|x: Seq<char>|
                #[trigger] in_component(r.deep_view(), x) <==> is_module(self@, x),
    {
        let modules = self.modules();
        proof {
            let all = Set::new(|x: Seq<char>| is_module(self@, x));
            assert forall|x: Seq<char>|
                #[trigger] modules.deep_view().contains(x) <==> is_module(self@, x) by {
                assert(modules.deep_view().contains(x) <==> all.contains(x));
            }
        }
        find_components(&self.adjacency, &modules)
    }

    /// Whether a component depends on nothing outside it and `emitted`.
    fn ready(&self, component: &ModuleScc, emitted: &Vec<ModuleScc>) -> (r: bool)
        ensures
            r == is_ready(self@, component.deep_view(), emitted.deep_view()),
    {
        let ghost g = self@;
        let ghost comp = component.deep_view();
        let ghost em = emitted.deep_view();
        let mut i: usize = 0;
        while i < component.modules.len()
            invariant
                i <= component.modules.len(),
                g == self@,
                comp == component.modules.deep_view(),
                em == emitted.deep_view(),
                forall|k: int, y: Seq<char>|
                    0 <= k < i && #[trigger] edge(g, comp[k], y) ==> comp.contains(y)
                        || in_component(em, y),
            decreases component.modules.len() - i,
        {
            let ghost x = comp[i as int];
            if let Some(dependencies) = self.adjacency.get(&component.modules[i]) {
                let mut k: usize = 0;
                while k < dependencies.len()
                    invariant
                        k <= dependencies.len(),
                        i < component.modules.len(),
                        g == self@,
                        comp == component.modules.deep_view(),
                        em == emitted.deep_view(),
                        x == comp[i as int],
                        comp.contains(x),
                        g.dom().contains(x),
                        dependencies.deep_view() == g[x],
                        forall|j: int|
                            0 <= j < k ==> comp.contains(#[trigger] g[x][j]) || in_component(
                                em,
                                g[x][j],
                            ),
                    decreases dependencies.len() - k,
                {
                    let d = &dependencies[k];
                    assert(g[x][k as int] == d@);
                    if !contains_value(&component.modules, d) && !is_emitted(emitted, d) {
                        assert(g[x].contains(d@));
                        assert(edge(g, x, d@));
                        return false;
                    }
                    k = k + 1;
                }
            }
            proof {
                assert forall|k: int, y: Seq<char>|
                    0 <= k < i + 1 && #[trigger] edge(g, comp[k], y) implies comp.contains(y)
                    || in_component(em, y) by {
                    if k == i {
                        let j = g[x].index_of(y);
                        assert(g[x][j] == y);
                    }
                }
            }
            i = i + 1;
        }
        proof {
            assert forall|x: Seq<char>, y: Seq<char>| #[trigger]
                edge(
                    g,
                    x,
                    y,
                ) && comp.contains(x) implies comp.contains(y) || in_component(em, y) by {
                let k = comp.index_of(x);
                assert(edge(g, comp[k], y));
            }
        }
        true
    }

    /// Returns SCCs in dependency-first order: if A imports B, B's component
    /// appears before A's component unless they are in the same SCC. Among
    /// components that could come next, the first by name does.
    #[verifier::rlimit(40)]
    pub fn dependency_ordered_sccs(&self) -> (r: Vec<ModuleScc>)
        ensures
            are_classes(self@, r.deep_view()),
            are_disjoint(r.deep_view()),
            dependencies_first(self@, r.deep_view()),
            least_ready_first(self@, r.deep_view()),
            forall|x: Seq<char>|
                #[trigger] in_component(r.deep_view(), x) <==> is_module(self@, x),
    {
        let components = self.strongly_connected_components();
        let ghost g = self@;
        let ghost cs = components.deep_view();
        let n = components.len();
        let mut ordered: Vec<ModuleScc> = Vec::new();
        let mut used: Vec<bool> = Vec::new();
        let mut i: usize = 0;
        while i < n
            invariant
                i <= n,
                used.len() == i,
                forall|k: int| 0 <= k < i ==> !used@[k],
            decreases n - i,
        {
            used.push(false);
            i = i + 1;
        }
        let ghost mut picked = Seq::<int>::empty();
        assert(ordered.deep_view() =~= Seq::empty());
        let mut step: usize = 0;
        while step < n
            invariant
                step <= n,
                n == components.len(),
                g == self@,
                cs == components.deep_view(),
                used.len() == n,
                are_classes(g, cs),
                dependencies_first(g, cs),
                picks(g, cs, picked, ordered.deep_view()),
                picked.len() == step,
                forall|k: int| 0 <= k < n ==> (#[trigger] used@[k] <==> picked.contains(k)),
            decreases n - step,
        {
            let mut best: Option<usize> = None;
            let mut k: usize = 0;
            let ghost emitted = ordered.deep_view();
            while k < n
                invariant
                    k <= n,
                    n == components.len(),
                    g == self@,
                    cs == components.deep_view(),
                    emitted == ordered.deep_view(),
                    used.len() == n,
                    forall|j: int| 0 <= j < n ==> (#[trigger] used@[j] <==> picked.contains(j)),
                    match best {
                        Some(b) => b < n && candidate(g, cs, picked, emitted, b as int) && forall|
                            j: int,
                        |
                            0 <= j < k && #[trigger] candidate(g, cs, picked, emitted, j)
                                ==> text_le(scc_key(cs[b as int]), scc_key(cs[j])),
                        None => forall|j: int|
                            0 <= j < k ==> !#[trigger] candidate(g, cs, picked, emitted, j),
                    },
                decreases n - k,
            {
                if !used[k] && self.ready(&components[k], &ordered) {
                    assert(candidate(g, cs, picked, emitted, k as int));
                    proof {
                        text_le_total_order();
                    }
                    match best {
                        None => {
                            best = Some(k);
                        },
                        Some(b) => {
                            let key_k = components[k].sort_key();
                            let key_b = components[b].sort_key();
                            if !text_at_most(key_b.as_str(), key_k.as_str()) {
                                best = Some(k);
                            }
                        },
                    }
                }
                k = k + 1;
            }
            proof {
                some_candidate(g, cs, picked, emitted);
            }
            match best {
                Some(b) => {
                    push_value(&mut ordered, components[b].dup());
                    used[b] = true;
                    proof {
                        pick(g, cs, picked, emitted, b as int);
                        assert forall|j: int| 0 <= j < n implies (#[trigger] used@[j]
                            <==> picked.push(b as int).contains(j)) by {
                            crate::seqs::push_contains(picked, b as int, j);
                        }
                        picked = picked.push(b as int);
                    }
                },
                None => {
                    assert(false);
                },
            }
            step = step + 1;
        }
        proof {
            all_picked(g, cs, picked, ordered.deep_view());
        }
        ordered
    }
}

/// Whether `x` is in one of the components.
fn is_emitted(components: &Vec<ModuleScc>, x: &String) -> (r: bool)
    ensures
        r == in_component(components.deep_view(), x@),
{
    let mut i: usize = 0;
    while i < components.len()
        invariant
            i <= components.len(),
            forall|j: int| 0 <= j < i ==> !(#[trigger] components.deep_view()[j]).contains(x@),
        decreases components.len() - i,
    {
        if contains_value(&components[i].modules, x) {
            assert(components.deep_view()[i as int].contains(x@));
            return true;
        }
        i = i + 1;
    }
    false
}

/// Component `k` has not been picked and is ready.
spec fn candidate(
    g: Adjacency,
    cs: Seq<Seq<Seq<char>>>,
    picked: Seq<int>,
    emitted: Seq<Seq<Seq<char>>>,
    k: int,
) -> bool {
    0 <= k < cs.len() && !picked.contains(k) && is_ready(g, cs[k], emitted)
}

/// `emitted` are the components picked, each once, and each was the first by
/// name that was ready when it was picked.
spec fn picks(
    g: Adjacency,
    cs: Seq<Seq<Seq<char>>>,
    picked: Seq<int>,
    emitted: Seq<Seq<Seq<char>>>,
) -> bool {
    &&& picked.len() == emitted.len()
    &&& picked.no_duplicates()
    &&& forall|i: int|
        0 <= i < picked.len() ==> 0 <= #[trigger] picked[i] < cs.len() && emitted[i] == cs[picked[i]]
    &&& forall|i: int|
        0 <= i < picked.len() ==> is_ready(g, #[trigger] emitted[i], emitted.take(i))
    &&& forall|i: int, k: int|
        #![trigger emitted[i], cs[k]]
        0 <= i < picked.len() && candidate(g, cs, picked.take(i), emitted.take(i), k) ==> text_le(
            scc_key(emitted[i]),
            scc_key(cs[k]),
        )
}

proof fn some_candidate(
    g: Adjacency,
    cs: Seq<Seq<Seq<char>>>,
    picked: Seq<int>,
    emitted: Seq<Seq<Seq<char>>>,
)
    requires
        picks(g, cs, picked, emitted),
        dependencies_first(g, cs),
        picked.len() < cs.len(),
    ensures
        exists|k: int| candidate(g, cs, picked, emitted, k),
{
    let k = first_unpicked(cs, picked, 0);
    assert(is_ready(g, cs[k], emitted)) by {
        assert forall|x: Seq<char>, y: Seq<char>| #[trigger]
            edge(g, x, y) && cs[k].contains(x) implies cs[k].contains(y) || in_component(
            emitted,
            y,
        ) by {
            assert(in_component(cs.take(k + 1), y));
            let j = choose|j: int|
                0 <= j < cs.take(k + 1).len() && (#[trigger] cs.take(k + 1)[j]).contains(y);
            assert(cs[j].contains(y));
            if j < k {
                assert(picked.contains(j));
                let i = picked.index_of(j);
                assert(picked[i] == j);
                assert(emitted[i].contains(y));
            }
        }
    }
    assert(candidate(g, cs, picked, emitted, k));
}

proof fn first_unpicked(cs: Seq<Seq<Seq<char>>>, picked: Seq<int>, from: int) -> (k: int)
    requires
        0 <= from <= cs.len(),
        picked.len() < cs.len(),
        picked.no_duplicates(),
        forall|j: int| 0 <= j < from ==> picked.contains(j),
    ensures
        0 <= k < cs.len(),
        !picked.contains(k),
        forall|j: int| 0 <= j < k ==> picked.contains(j),
    decreases cs.len() - from,
{
    if from == cs.len() {
        let all = vstd::set_lib::set_int_range(0, cs.len() as int);
        vstd::set_lib::lemma_int_range(0, cs.len() as int);
        picked.unique_seq_to_set();
        vstd::seq_lib::seq_to_set_is_finite(picked);
        assert(all.subset_of(picked.to_set()));
        vstd::set_lib::lemma_len_subset(all, picked.to_set());
        0
    } else if picked.contains(from) {
        first_unpicked(cs, picked, from + 1)
    } else {
        from
    }
}

proof fn pick(
    g: Adjacency,
    cs: Seq<Seq<Seq<char>>>,
    picked: Seq<int>,
    emitted: Seq<Seq<Seq<char>>>,
    b: int,
)
    requires
        picks(g, cs, picked, emitted),
        candidate(g, cs, picked, emitted, b),
        forall|j: int| #[trigger]
            candidate(g, cs, picked, emitted, j) ==> text_le(scc_key(cs[b]), scc_key(cs[j])),
    ensures
        picks(g, cs, picked.push(b), emitted.push(cs[b])),
{
    let picked1 = picked.push(b);
    let emitted1 = emitted.push(cs[b]);
    let n = picked.len() as int;
    assert forall|i: int, j: int|
        0 <= i < picked1.len() && 0 <= j < picked1.len() && i != j implies picked1[i]
        != picked1[j] by {
        if i == n {
            assert(picked.contains(picked[j]));
        } else if j == n {
            assert(picked.contains(picked[i]));
        }
    }
    assert forall|i: int| 0 <= i <= n implies emitted1.take(i) == emitted.take(i)
        && #[trigger] picked1.take(i) == picked.take(i) by {
        assert(emitted1.take(i) =~= emitted.take(i));
        assert(picked1.take(i) =~= picked.take(i));
    }
    assert(emitted.take(n) =~= emitted);
    assert(picked.take(n) =~= picked);
    assert forall|i: int| 0 <= i < picked1.len() implies is_ready(
        g,
        #[trigger] emitted1[i],
        emitted1.take(i),
    ) by {
        assert(picked1.take(i) == picked.take(i));
        if i < n {
            assert(emitted1[i] == emitted[i]);
        }
    }
    assert forall|i: int, k: int|
        #![trigger emitted1[i], cs[k]]
        0 <= i < picked1.len() && candidate(
            g,
            cs,
            picked1.take(i),
            emitted1.take(i),
            k,
        ) implies text_le(scc_key(emitted1[i]), scc_key(cs[k])) by {
        assert(picked1.take(i) == picked.take(i));
        if i < n {
            assert(emitted1[i] == emitted[i]);
        }
    }
}

proof fn all_picked(
    g: Adjacency,
    cs: Seq<Seq<Seq<char>>>,
    picked: Seq<int>,
    r: Seq<Seq<Seq<char>>>,
)
    requires
        picks(g, cs, picked, r),
        picked.len() == cs.len(),
        are_classes(g, cs),
        are_disjoint(cs),
        dependencies_first(g, cs),
    ensures
        are_classes(g, r),
        are_disjoint(r),
        dependencies_first(g, r),
        least_ready_first(g, r),
        forall|x: Seq<char>| #[trigger] in_component(r, x) <==> in_component(cs, x),
{
    let all = vstd::set_lib::set_int_range(0, cs.len() as int);
    vstd::set_lib::lemma_int_range(0, cs.len() as int);
    picked.unique_seq_to_set();
    assert(picked.to_set().subset_of(all));
    vstd::set_lib::lemma_subset_equality(picked.to_set(), all);
    assert forall|i: int| 0 <= i < r.len() implies #[trigger] r[i] == cs[picked[i]] by {}
    assert forall|x: Seq<char>| #[trigger] in_component(r, x) <==> in_component(cs, x) by {
        if in_component(r, x) {
            let i = choose|i: int| 0 <= i < r.len() && (#[trigger] r[i]).contains(x);
            assert(cs[picked[i]].contains(x));
        }
        if in_component(cs, x) {
            let k = choose|k: int| 0 <= k < cs.len() && (#[trigger] cs[k]).contains(x);
            assert(all.contains(k));
            assert(picked.contains(k));
            let i = picked.index_of(k);
            assert(r[i].contains(x));
        }
    }
    assert forall|i: int, x: Seq<char>, y: Seq<char>|
        #![trigger r[i].contains(x), r[i].contains(y)]
        0 <= i < r.len() && r[i].contains(x) implies (r[i].contains(y)
        <==> crate::reachability::mutual(g, x, y)) by {
        assert(cs[picked[i]].contains(x));
        assert(cs[picked[i]].contains(y) <==> crate::reachability::mutual(g, x, y));
    }
    assert forall|i: int, j: int, x: Seq<char>|
        #![trigger r[i].contains(x), r[j].contains(x)]
        0 <= i < r.len() && 0 <= j < r.len() && r[i].contains(x) && r[j].contains(
            x,
        ) implies i == j by {
        assert(cs[picked[i]].contains(x) && cs[picked[j]].contains(x));
        assert(picked[i] == picked[j]);
    }
    assert forall|i: int, x: Seq<char>, y: Seq<char>|
        #![trigger r[i].contains(x), edge(g, x, y)]
        0 <= i < r.len() && r[i].contains(x) && edge(g, x, y) implies in_component(
        r.take(i + 1),
        y,
    ) by {
        assert(is_ready(g, r[i], r.take(i)));
        if r[i].contains(y) {
            assert(r.take(i + 1)[i].contains(y));
        } else {
            let j = choose|j: int| 0 <= j < r.take(i).len() && (#[trigger] r.take(i)[j]).contains(y);
            assert(r.take(i + 1)[j].contains(y));
        }
    }
    assert forall|i: int, j: int|
        #![trigger r[i], r[j]]
        0 <= i < j < r.len() && is_ready(g, r[j], r.take(i)) implies text_le(
        scc_key(r[i]),
        scc_key(r[j]),
    ) by {
        if picked.take(i).contains(picked[j]) {
            let a = picked.take(i).index_of(picked[j]);
            assert(picked[a] == picked[j]);
        }
        assert(candidate(g, cs, picked.take(i), r.take(i), picked[j]));
        assert(cs[picked[j]] == r[j]);
    }
}

} // verus!
