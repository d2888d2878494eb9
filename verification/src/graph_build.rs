//! Building the module graph from headers, programs and loaded files.

use vstd::prelude::*;
use crate::ast::Decl;
use crate::graph::ModuleGraph;
use crate::header::{import_modules_for_program, imported_modules, program_imports};
use crate::header_decls::{HeaderModel, ImportModel, ModuleHeader};
use crate::reachability::{
    edge, is_module, mutual, path_leaves, reaches, reaches_edge, reaches_self, reaches_through,
    Adjacency,
};
use crate::seqs::push_contains;
use crate::sorting::{listings_have_each_name_once, ordered, ordered_is};
use crate::table::{at_key, distinct_keys, has_key, Table};
use crate::tarjan::{are_classes, in_component};
use crate::text::{concat4, joined};
use crate::values::{contains_name, outcome, push_value, reached, Dup};

verus! {

/// What came of reading a module's file.
pub enum Loaded {
    Program(Vec<Decl>),
    /// The file could not be read, and why.
    Unreadable(String),
    /// The text could not be split into tokens, and why.
    NotLexed(String),
    /// The tokens are no program, and why.
    NotParsed(String),
}

impl DeepView for Loaded {
    type V = Loaded;

    open spec fn deep_view(&self) -> Loaded {
        *self
    }
}

/// A module's dependencies, or why they cannot be told.
pub open spec fn loaded_imports(module: Seq<char>, loaded: Loaded) -> Result<
    Seq<Seq<char>>,
    Seq<char>,
> {
    match loaded {
        Loaded::Program(program) => Ok(ordered(program_imports(program@).to_set())),
        Loaded::Unreadable(e) => Err("cannot read module '"@ + module + "': "@ + e@),
        Loaded::NotLexed(e) => Err("lex error in module '"@ + module + "': "@ + e@),
        Loaded::NotParsed(e) => Err("parse error in module '"@ + module + "': "@ + e@),
    }
}

/// What stands at a path: what the overlay has for it, or else the file.
pub open spec fn loaded_at(
    files: Map<Seq<char>, Loaded>,
    overlay: Map<Seq<char>, Loaded>,
    path: Seq<char>,
) -> Loaded {
    if overlay.dom().contains(path) {
        overlay[path]
    } else {
        files[path]
    }
}

/// Every module's file is there.
pub open spec fn all_loaded(
    map: Seq<(Seq<char>, Seq<char>)>,
    files: Map<Seq<char>, Loaded>,
    overlay: Map<Seq<char>, Loaded>,
) -> bool {
    forall|i: int|
        #![trigger map[i]]
        0 <= i < map.len() ==> overlay.dom().contains(map[i].1) || files.dom().contains(map[i].1)
}

fn module_dependencies_from_file(
    module: &str,
    path: &String,
    files: &Table<String, Loaded>,
    overlay: &Table<String, Loaded>,
) -> (r: Result<Vec<String>, String>)
    requires
        overlay.deep_view().dom().contains(path@) || files.deep_view().dom().contains(path@),
    ensures
        outcome(r) == loaded_imports(
            module@,
            loaded_at(files.deep_view(), overlay.deep_view(), path@),
        ),
{
    let loaded = match overlay.get(path) {
        Some(l) => l,
        None => match files.get(path) {
            Some(l) => l,
            None => {
                assert(false);
                return Ok(Vec::new());
            },
        },
    };
    match loaded {
        Loaded::Program(program) => Ok(import_modules_for_program(program)),
        Loaded::Unreadable(e) => Err(
            concat4("cannot read module '", module, "': ", e.as_str()),
        ),
        Loaded::NotLexed(e) => Err(
            concat4("lex error in module '", module, "': ", e.as_str()),
        ),
        Loaded::NotParsed(e) => Err(
            concat4("parse error in module '", module, "': ", e.as_str()),
        ),
    }
}

pub open spec fn with_header_node(g: Adjacency, h: HeaderModel) -> Adjacency {
    match h.module_name {
        Some(module) => g.insert(module, imported_modules(h)),
        None => g,
    }
}

/// The graph of some headers: each named module with its imports.
pub open spec fn graph_of_headers(acc: Adjacency, items: Seq<HeaderModel>) -> Adjacency
    decreases items.len(),
{
    if items.len() == 0 {
        acc
    } else {
        with_header_node(graph_of_headers(acc, items.drop_last()), items.last())
    }
}

pub open spec fn with_program_node(g: Adjacency, p: (String, Vec<Decl>)) -> Adjacency {
    g.insert(p.0@, ordered(program_imports(p.1@).to_set()))
}

/// The graph of some programs: each module with its imports.
pub open spec fn graph_of_programs(acc: Adjacency, items: Seq<(String, Vec<Decl>)>) -> Adjacency
    decreases items.len(),
{
    if items.len() == 0 {
        acc
    } else {
        with_program_node(graph_of_programs(acc, items.drop_last()), items.last())
    }
}

fn add_header_nodes(acc: &mut Table<String, Vec<String>>, items: &Vec<ModuleHeader>)
    ensures
        final(acc).deep_view() == graph_of_headers(old(acc).deep_view(), items.deep_view()),
{
    let ghost a0 = acc.deep_view();
    let ghost all = items.deep_view();
    let mut i: usize = 0;
    assert(all.take(0) =~= Seq::empty());
    while i < items.len()
        invariant
            i <= items.len(),
            all == items.deep_view(),
            acc.deep_view() == graph_of_headers(a0, all.take(i as int)),
        decreases items.len() - i,
    {
        proof {
            assert(all.take(i + 1).drop_last() =~= all.take(i as int));
            assert(all.take(i + 1).last() == all[i as int]);
        }
        let header = &items[i];
        if let Some(module) = &header.module_name {
            acc.insert(module.clone(), header.import_modules());
        }
        i = i + 1;
    }
    assert(all.take(i as int) =~= all);
}

fn add_program_nodes(acc: &mut Table<String, Vec<String>>, items: &Vec<(String, Vec<Decl>)>)
    ensures
        final(acc).deep_view() == graph_of_programs(old(acc).deep_view(), items@),
{
    let ghost a0 = acc.deep_view();
    let ghost all = items@;
    let mut i: usize = 0;
    assert(all.take(0) =~= Seq::empty());
    while i < items.len()
        invariant
            i <= items.len(),
            all == items@,
            acc.deep_view() == graph_of_programs(a0, all.take(i as int)),
        decreases items.len() - i,
    {
        proof {
            assert(all.take(i + 1).drop_last() =~= all.take(i as int));
            assert(all.take(i + 1).last() == all[i as int]);
        }
        acc.insert(items[i].0.clone(), import_modules_for_program(&items[i].1));
        i = i + 1;
    }
    assert(all.take(i as int) =~= all);
}

impl ModuleGraph {
    /// The graph of modules whose headers are at hand.
    pub fn from_headers(headers: &Vec<ModuleHeader>) -> (r: Self)
        ensures
            r@ == graph_of_headers(Map::empty(), headers.deep_view()),
    {
        let mut adjacency: Table<String, Vec<String>> = Table::new();
        add_header_nodes(&mut adjacency, headers);
        ModuleGraph { adjacency }
    }

    /// The graph of modules whose programs are at hand.
    pub fn from_programs(programs: &Vec<(String, Vec<Decl>)>) -> (r: Self)
        ensures
            r@ == graph_of_programs(Map::empty(), programs@),
    {
        let mut adjacency: Table<String, Vec<String>> = Table::new();
        add_program_nodes(&mut adjacency, programs);
        ModuleGraph { adjacency }
    }
}

pub open spec fn with_file_node(
    files: Map<Seq<char>, Loaded>,
    overlay: Map<Seq<char>, Loaded>,
    g: Adjacency,
    m: (Seq<char>, Seq<char>),
) -> Result<Adjacency, Seq<char>> {
    match loaded_imports(m.0, loaded_at(files, overlay, m.1)) {
        Ok(deps) => Ok(g.insert(m.0, deps)),
        Err(e) => Err(e),
    }
}

/// The graph of the modules of a module map, or the first failure.
pub open spec fn graph_of_files(
    files: Map<Seq<char>, Loaded>,
    overlay: Map<Seq<char>, Loaded>,
    acc: Adjacency,
    items: Seq<(Seq<char>, Seq<char>)>,
) -> Result<Adjacency, Seq<char>>
    decreases items.len(),
{
    if items.len() == 0 {
        Ok(acc)
    } else {
        match graph_of_files(files, overlay, acc, items.drop_last()) {
            Ok(acc) => with_file_node(files, overlay, acc, items.last()),
            Err(e) => Err(e),
        }
    }
}

/// The first failure is the outcome.
proof fn graph_of_files_stops(
    files: Map<Seq<char>, Loaded>,
    overlay: Map<Seq<char>, Loaded>,
    acc: Adjacency,
    items: Seq<(Seq<char>, Seq<char>)>,
    n: int,
)
    requires
        0 <= n <= items.len(),
        graph_of_files(files, overlay, acc, items.take(n)) is Err,
    ensures
        graph_of_files(files, overlay, acc, items) == graph_of_files(
            files,
            overlay,
            acc,
            items.take(n),
        ),
    decreases items.len(),
{
    if n < items.len() {
        assert(items.drop_last().take(n) =~= items.take(n));
        graph_of_files_stops(files, overlay, acc, items.drop_last(), n);
    } else {
        assert(items.take(n) =~= items);
    }
}

fn add_file_nodes(
    files: &Table<String, Loaded>,
    overlay: &Table<String, Loaded>,
    acc: &mut Table<String, Vec<String>>,
    items: &Table<String, String>,
) -> (r: Result<(), String>)
    requires
        all_loaded(items.order(), files.deep_view(), overlay.deep_view()),
    ensures
        graph_of_files(
            files.deep_view(),
            overlay.deep_view(),
            old(acc).deep_view(),
            items.order(),
        ) == reached(r, final(acc).deep_view()),
{
    let ghost a0 = acc.deep_view();
    let ghost all = items.order();
    let n = items.len();
    let mut i: usize = 0;
    assert(all.take(0) =~= Seq::empty());
    while i < n
        invariant
            i <= n,
            all == items.order(),
            a0 == old(acc).deep_view(),
            n == all.len(),
            graph_of_files(
                files.deep_view(),
                overlay.deep_view(),
                a0,
                all.take(i as int),
            ) == Ok::<_, Seq<char>>(acc.deep_view()),
            all_loaded(items.order(), files.deep_view(), overlay.deep_view()),
        decreases n - i,
    {
        proof {
            assert(all.take(i + 1).drop_last() =~= all.take(i as int));
            assert(all.take(i + 1).last() == all[i as int]);
        }
        let module = items.key(i);
        let r: Result<(), String> = match module_dependencies_from_file(
            module.as_str(),
            items.value(i),
            files,
            overlay,
        ) {
            Ok(deps) => {
                acc.insert(module.clone(), deps);
                Ok(())
            },
            Err(e) => Err(e),
        };
        if let Err(e) = r {
            proof {
                graph_of_files_stops(files.deep_view(), overlay.deep_view(), a0, all, i + 1);
            }
            return Err(e);
        }
        i = i + 1;
    }
    assert(all.take(i as int) =~= all);
    Ok(())
}

/// The graph of every module of a module map.
pub fn build_module_graph(
    module_map: &Table<String, String>,
    files: &Table<String, Loaded>,
) -> (r: Result<ModuleGraph, String>)
    requires
        all_loaded(module_map.order(), files.deep_view(), Map::empty()),
    ensures
        outcome(r) == graph_of_files(
            files.deep_view(),
            Map::empty(),
            Map::empty(),
            module_map.order(),
        ),
{
    let overlay: Table<String, Loaded> = Table::new();
    build_module_graph_with_sources(module_map, files, &overlay)
}

/// The graph of every module of a module map, where `source_overlay` holds
/// texts that take the place of files.
pub fn build_module_graph_with_sources(
    module_map: &Table<String, String>,
    files: &Table<String, Loaded>,
    source_overlay: &Table<String, Loaded>,
) -> (r: Result<ModuleGraph, String>)
    requires
        all_loaded(module_map.order(), files.deep_view(), source_overlay.deep_view()),
    ensures
        outcome(r) == graph_of_files(
            files.deep_view(),
            source_overlay.deep_view(),
            Map::empty(),
            module_map.order(),
        ),
{
    let mut adjacency: Table<String, Vec<String>> = Table::new();
    match add_file_nodes(files, source_overlay, &mut adjacency, module_map) {
        Ok(_) => Ok(ModuleGraph { adjacency }),
        Err(e) => Err(e),
    }
}

/// The dependencies between the modules of a module map that can be told.
pub open spec fn mapped_graph(
    map: Seq<(Seq<char>, Seq<char>)>,
    files: Map<Seq<char>, Loaded>,
    overlay: Map<Seq<char>, Loaded>,
) -> Adjacency {
    Map::new(
        |m: Seq<char>| has_key(map, m) && imports_at(map, files, overlay, m) is Ok,
        |m: Seq<char>|
            imports_at(map, files, overlay, m)->Ok_0.filter(|d: Seq<char>| has_key(map, d)),
    )
}

/// The dependencies of a module of a module map.
pub open spec fn imports_at(
    map: Seq<(Seq<char>, Seq<char>)>,
    files: Map<Seq<char>, Loaded>,
    overlay: Map<Seq<char>, Loaded>,
    m: Seq<char>,
) -> Result<Seq<Seq<char>>, Seq<char>> {
    loaded_imports(m, loaded_at(files, overlay, at_key(map, m)->0))
}

/// What a module in reach contributes to the graph: its dependencies, and none
/// where it is not in the module map.
pub open spec fn reached_imports(
    map: Seq<(Seq<char>, Seq<char>)>,
    files: Map<Seq<char>, Loaded>,
    overlay: Map<Seq<char>, Loaded>,
    m: Seq<char>,
) -> Seq<Seq<char>> {
    if has_key(map, m) {
        imports_at(map, files, overlay, m)->Ok_0
    } else {
        Seq::empty()
    }
}

/// The graph of the modules that `root_module` leads to within the module map.
/// It fails just where one of them does, with the failure of such a module.
pub fn build_reachable_module_graph_with_sources(
    module_map: &Table<String, String>,
    root_module: &str,
    files: &Table<String, Loaded>,
    source_overlay: &Table<String, Loaded>,
) -> (r: Result<ModuleGraph, String>)
    requires
        all_loaded(module_map.order(), files.deep_view(), source_overlay.deep_view()),
    ensures
        ({
            let map = module_map.order();
            let f = files.deep_view();
            let o = source_overlay.deep_view();
            let g = mapped_graph(map, f, o);
            match r {
                Ok(graph) => {
                    &&& forall|m: Seq<char>| #[trigger]
                        graph@.dom().contains(m) <==> reaches(g, root_module@, m)
                    &&& forall|m: Seq<char>| #[trigger]
                        graph@.dom().contains(m) ==> graph@[m] == reached_imports(map, f, o, m)
                    &&& forall|m: Seq<char>| #[trigger]
                        reaches(g, root_module@, m) && has_key(map, m) ==> imports_at(
                            map,
                            f,
                            o,
                            m,
                        ) is Ok
                },
                Err(e) => exists|m: Seq<char>| #[trigger]
                    reaches(g, root_module@, m) && has_key(map, m) && imports_at(map, f, o, m)
                        == Err::<Seq<Seq<char>>, Seq<char>>(e@),
            }
        }),
{
    let ghost map = module_map.order();
    let ghost f = files.deep_view();
    let ghost o = source_overlay.deep_view();
    let ghost g = mapped_graph(map, f, o);
    let ghost root = root_module@;
    let mut adjacency: Table<String, Vec<String>> = Table::new();
    let mut stack: Vec<String> = Vec::new();
    push_value(&mut stack, root_module.to_owned());
    let ghost universe = Set::new(|m: Seq<char>| has_key(map, m) || m == root);
    proof {
        reaches_self(g, root);
        universe_is_finite(map, root);
        assert(stack.deep_view() =~= seq![root]);
        assert(stack.deep_view()[0] == root);
        module_map_keys(map);
    }
    let ghost mut seen = Set::<Seq<char>>::empty();
    while stack.len() > 0
        invariant
            map == module_map.order(),
            f == files.deep_view(),
            o == source_overlay.deep_view(),
            g == mapped_graph(map, f, o),
            root == root_module@,
            all_loaded(map, f, o),
            universe == Set::new(|m: Seq<char>| has_key(map, m) || m == root),
            universe.finite(),
            seen.subset_of(universe),
            adjacency.deep_view().dom() == seen,
            forall|m: Seq<char>| #[trigger] seen.contains(m) ==> reaches(g, root, m),
            forall|m: Seq<char>| #[trigger]
                seen.contains(m) ==> adjacency.deep_view()[m] == reached_imports(map, f, o, m),
            forall|m: Seq<char>| #[trigger]
                seen.contains(m) && has_key(map, m) ==> imports_at(map, f, o, m) is Ok,
            forall|i: int|
                #![trigger stack.deep_view()[i]]
                0 <= i < stack.len() ==> reaches(g, root, stack.deep_view()[i])
                    && universe.contains(stack.deep_view()[i]),
            forall|a: Seq<char>, b: Seq<char>|
                seen.contains(a) && #[trigger] edge(g, a, b) ==> seen.contains(b)
                    || stack.deep_view().contains(b),
            seen.contains(root) || stack.deep_view().contains(root),
        decreases universe.difference(seen).len(), stack.len(),
    {
        let ghost stack0 = stack.deep_view();
        let ghost seen0 = seen;
        let module = stack.pop().unwrap();
        proof {
            assert(stack0.drop_last() =~= stack.deep_view());
            assert(stack0.last() == module@);
            assert(stack0[stack0.len() - 1] == module@);
            assert forall|x: Seq<char>| stack0.contains(x) <==> stack.deep_view().contains(x) || x
                == module@ by {
                crate::seqs::push_contains(stack.deep_view(), module@, x);
                assert(stack.deep_view().push(module@) =~= stack0);
            }
        }
        if adjacency.contains_key(&module) {
            continue ;
        }
        proof {
            seen = seen.insert(module@);
            assert(universe.difference(seen) =~= universe.difference(seen0).remove(module@));
        }
        let path = match module_map.get(&module) {
            Some(p) => p.clone(),
            None => {
                let none: Vec<String> = Vec::new();
                assert(none.deep_view() =~= Seq::empty());
                adjacency.insert(module, none);
                continue ;
            },
        };
        proof {
            let i = crate::table::key_index(map, module@);
            assert(map[i].0 == module@ && map[i].1 == path@);
        }
        let deps = match module_dependencies_from_file(
            module.as_str(),
            &path,
            files,
            source_overlay,
        ) {
            Err(e) => {
                return Err(e);
            },
            Ok(d) => d,
        };
        let ghost ds = deps.deep_view();
        proof {
            assert(imports_at(map, f, o, module@) == Ok::<Seq<Seq<char>>, Seq<char>>(ds));
            assert(g.dom().contains(module@));
        }
        let ghost stack1 = stack.deep_view();
        let mut i: usize = 0;
        while i < deps.len()
            invariant
                i <= deps.len(),
                map == module_map.order(),
                ds == deps.deep_view(),
                g == mapped_graph(map, f, o),
                universe == Set::new(|m: Seq<char>| has_key(map, m) || m == root),
                adjacency.deep_view().dom() == seen0,
                seen == seen0.insert(module@),
                reaches(g, root, module@),
                g.dom().contains(module@),
                imports_at(map, f, o, module@) == Ok::<Seq<Seq<char>>, Seq<char>>(ds),
                forall|x: Seq<char>| #[trigger]
                    stack1.contains(x) ==> stack.deep_view().contains(x),
                forall|j: int|
                    #![trigger stack.deep_view()[j]]
                    0 <= j < stack.len() ==> reaches(g, root, stack.deep_view()[j])
                        && universe.contains(stack.deep_view()[j]),
                forall|j: int|
                    #![trigger ds[j]]
                    0 <= j < i && has_key(map, ds[j]) ==> seen0.contains(ds[j])
                        || stack.deep_view().contains(ds[j]),
            decreases deps.len() - i,
        {
            let dep = &deps[i];
            assert(ds[i as int] == dep@);
            let ghost before = stack.deep_view();
            if module_map.contains_key(dep) && !adjacency.contains_key(dep) {
                proof {
                    crate::seqs::filter_contains(ds, |d: Seq<char>| has_key(map, d), dep@);
                    assert(ds.contains(dep@)) by {
                        assert(ds[i as int] == dep@);
                    }
                    assert(edge(g, module@, dep@));
                    reaches_edge(g, module@, dep@);
                    reaches_through(g, root, module@, dep@);
                    assert forall|x: Seq<char>|
                        before.push(dep@).contains(x) <==> before.contains(x) || x == dep@ by {
                        crate::seqs::push_contains(before, dep@, x);
                    }
                }
                push_value(&mut stack, dep.clone());
                assert(stack.deep_view()[before.len() as int] == dep@);
                assert(stack.deep_view().contains(ds[i as int]));
            }
            proof {
                assert(forall|x: Seq<char>|
                    before.contains(x) ==> stack.deep_view().contains(x));
                assert forall|j: int|
                    #![trigger ds[j]]
                    0 <= j < i + 1 && has_key(map, ds[j]) implies seen0.contains(ds[j])
                    || stack.deep_view().contains(ds[j]) by {
                    if j < i {
                        assert(seen0.contains(ds[j]) || before.contains(ds[j]));
                    }
                }
            }
            i = i + 1;
        }
        adjacency.insert(module, deps);
        proof {
            assert(adjacency.deep_view().dom() =~= seen);
            assert forall|a: Seq<char>, b: Seq<char>|
                seen.contains(a) && #[trigger] edge(g, a, b) implies seen.contains(b)
                || stack.deep_view().contains(b) by {
                if a == module@ {
                    crate::seqs::filter_contains(ds, |d: Seq<char>| has_key(map, d), b);
                    let j = choose|j: int| 0 <= j < ds.len() && ds[j] == b;
                    assert(ds[j] == b);
                } else if !seen.contains(b) {
                    assert(stack0.contains(b));
                    assert(stack1.contains(b));
                }
            }
        }
    }
    proof {
        assert(stack.deep_view() =~= Seq::empty());
        assert(!stack.deep_view().contains(root));
        assert forall|m: Seq<char>| #[trigger] reaches(g, root, m) implies seen.contains(m) by {
            if !seen.contains(m) {
                let (a, b) = path_leaves(g, seen, root, m);
                assert(edge(g, a, b));
                assert(stack.deep_view().contains(b));
            }
        }
    }
    Ok(ModuleGraph { adjacency })
}

proof fn module_map_keys(map: Seq<(Seq<char>, Seq<char>)>)
    ensures
        forall|i: int| #![trigger map[i]] 0 <= i < map.len() ==> has_key(map, map[i].0),
{
}

proof fn universe_is_finite(map: Seq<(Seq<char>, Seq<char>)>, root: Seq<char>)
    ensures
        Set::new(|m: Seq<char>| has_key(map, m) || m == root).finite(),
{
    let names = map.map_values(|e: (Seq<char>, Seq<char>)| e.0);
    let s = names.to_set().insert(root);
    assert(s.finite());
    assert forall|m: Seq<char>| s.contains(m) <==> has_key(map, m) || m == root by {
        if has_key(map, m) {
            let i = choose|i: int| 0 <= i < map.len() && (#[trigger] map[i]).0 == m;
            assert(names[i] == m);
        }
        if names.contains(m) {
            let i = choose|i: int| 0 <= i < names.len() && names[i] == m;
            assert(map[i].0 == m);
        }
    }
    assert(s =~= Set::new(|m: Seq<char>| has_key(map, m) || m == root));
}

/// Whether a module is in an import cycle.
pub open spec fn in_cycle(g: Adjacency, module: Seq<char>) -> bool {
    edge(g, module, module) || exists|x: Seq<char>| x != module && #[trigger] mutual(g, module, x)
}

/// The modules of the cycle that a module is in, if it is in one, in order.
pub open spec fn cycle_of(g: Adjacency, module: Seq<char>) -> Option<Seq<Seq<char>>> {
    if is_module(g, module) && in_cycle(g, module) {
        Some(ordered(Set::new(|x: Seq<char>| mutual(g, module, x))))
    } else {
        None
    }
}

/// The modules of the cycle that a module is in, if it is in one.
pub fn cycle_containing(graph: &ModuleGraph, module: &str) -> (r: Option<Vec<String>>)
    ensures
        r.deep_view() == cycle_of(graph@, module@),
{
    let ghost g = graph@;
    let components = graph.strongly_connected_components();
    let ghost comps = components.deep_view();
    let selfish = match graph.dependencies(module) {
        Some(deps) => contains_name(deps, module),
        None => false,
    };
    assert(selfish == edge(g, module@, module@));
    let mut i: usize = 0;
    while i < components.len()
        invariant
            i <= components.len(),
            g == graph@,
            comps == components.deep_view(),
            are_classes(g, comps),
            selfish == edge(g, module@, module@),
            forall|x: Seq<char>| #[trigger] in_component(comps, x) <==> is_module(g, x),
            forall|j: int| 0 <= j < i ==> !(#[trigger] comps[j]).contains(module@),
        decreases components.len() - i,
    {
        let component = &components[i];
        assert(comps[i as int] == component.modules.deep_view());
        if contains_name(&component.modules, module) {
            let ghost c = comps[i as int];
            proof {
                assert(in_component(comps, module@));
                assert(c.len() == component.modules.len());
                let all = Set::new(|x: Seq<char>| mutual(g, module@, x));
                assert forall|x: Seq<char>| c.contains(x) <==> all.contains(x) by {
                    assert(c.contains(module@));
                }
                assert(c.to_set() =~= all);
                ordered_is(c, all);
                if c.len() > 1 {
                    let k = choose|k: int| 0 <= k < c.len() && c[k] == module@;
                    let other = if k == 0 {
                        c[1]
                    } else {
                        c[0]
                    };
                    assert(c.contains(other));
                    assert(c[0] != c[1]);
                    assert(mutual(g, module@, other));
                    if k > 1 {
                        assert(c[0] != c[k]);
                    }
                    assert(other != module@);
                } else {
                    assert forall|x: Seq<char>| mutual(g, module@, x) implies x == module@ by {
                        assert(c.contains(x));
                        assert(c.len() == 1);
                    }
                }
            }
            if component.is_cycle() || selfish {
                return Some(component.modules.dup());
            }
            return None;
        }
        i = i + 1;
    }
    assert(!is_module(g, module@)) by {
        if is_module(g, module@) {
            assert(in_component(comps, module@));
        }
    }
    None
}

/// The module map of a project and the graph of it, once that has been built.
pub struct ModuleIndex {
    pub map: Option<Table<String, String>>,
    pub module_graph: Option<ModuleGraph>,
}

impl ModuleIndex {
    /// The graph that a search for cycles goes by.
    pub open spec fn graph_or_built(
        &self,
        files: Map<Seq<char>, Loaded>,
        map: Seq<(Seq<char>, Seq<char>)>,
    ) -> Result<Adjacency, Seq<char>> {
        match self.module_graph {
            Some(graph) => Ok(graph@),
            None => graph_of_files(files, Map::empty(), Map::empty(), map),
        }
    }

    /// The modules of the cycle that a module is in, if it is in one. The graph
    /// of the whole project is built once and kept; where that fails, the part
    /// in reach of the module serves.
    pub fn cyclic_component_containing(
        &mut self,
        module: &str,
        files: &Table<String, Loaded>,
    ) -> (r: Result<Option<Vec<String>>, String>)
        requires
            old(self).map is Some ==> all_loaded(
                old(self).map->0.order(),
                files.deep_view(),
                Map::empty(),
            ),
        ensures
            final(self).map == old(self).map,
            old(self).map is None ==> r == Ok::<Option<Vec<String>>, String>(None)
                && final(self).module_graph == old(self).module_graph,
            old(self).map is Some ==> ({
                let map = old(self).map->0.order();
                let f = files.deep_view();
                match old(self).graph_or_built(f, map) {
                    Ok(g) => {
                        &&& r is Ok
                        &&& r->Ok_0.deep_view() == cycle_of(g, module@)
                        &&& final(self).module_graph is Some
                        &&& final(self).module_graph->0@ == g
                    },
                    Err(_) => {
                        &&& final(self).module_graph == old(self).module_graph
                        &&& match r {
                            Ok(component) => exists|g: Adjacency| #[trigger]
                                is_graph_in_reach(map, f, module@, g) && component.deep_view()
                                    == cycle_of(g, module@),
                            Err(e) => exists|m: Seq<char>| #[trigger]
                                reaches(mapped_graph(map, f, Map::empty()), module@, m) && has_key(
                                    map,
                                    m,
                                ) && imports_at(map, f, Map::empty(), m) == Err::<
                                    Seq<Seq<char>>,
                                    Seq<char>,
                                >(e@),
                        }
                    },
                }
            }),
    {
        let built = match &self.map {
            None => {
                return Ok(None);
            },
            Some(map) => match &self.module_graph {
                Some(graph) => {
                    return Ok(cycle_containing(graph, module));
                },
                None => build_module_graph(map, files),
            },
        };
        match built {
            Ok(graph) => {
                let r = cycle_containing(&graph, module);
                self.module_graph = Some(graph);
                Ok(r)
            },
            Err(_) => {
                let overlay: Table<String, Loaded> = Table::new();
                match &self.map {
                    None => Ok(None),
                    Some(map) => match build_reachable_module_graph_with_sources(
                        map,
                        module,
                        files,
                        &overlay,
                    ) {
                        Ok(graph) => {
                            assert(is_graph_in_reach(
                                map.order(),
                                files.deep_view(),
                                module@,
                                graph@,
                            ));
                            Ok(cycle_containing(&graph, module))
                        },
                        Err(e) => Err(e),
                    },
                }
            },
        }
    }
}

/// `g` is the graph of what a module leads to within the module map.
pub open spec fn is_graph_in_reach(
    map: Seq<(Seq<char>, Seq<char>)>,
    files: Map<Seq<char>, Loaded>,
    root: Seq<char>,
    g: Adjacency,
) -> bool {
    let inner = mapped_graph(map, files, Map::empty());
    &&& forall|m: Seq<char>| #[trigger] g.dom().contains(m) <==> reaches(inner, root, m)
    &&& forall|m: Seq<char>| #[trigger]
        g.dom().contains(m) ==> g[m] == reached_imports(map, files, Map::empty(), m)
}

/// Whether a program imports a module.
pub open spec fn imports_module(program: Seq<Decl>, module: Seq<char>) -> bool {
    exists|i: int|
        0 <= i < program.len() && ((#[trigger] program[i]) matches Decl::Import {
            module: path,
            ..
        } && joined(path.deep_view(), "."@) == module)
}

proof fn imports_are_listed(program: Seq<Decl>, module: Seq<char>)
    ensures
        program_imports(program).contains(module) <==> imports_module(program, module),
    decreases program.len(),
{
    if program.len() > 0 {
        let init = program.drop_last();
        imports_are_listed(init, module);
        assert(program[program.len() - 1] == program.last());
        assert(forall|i: int| 0 <= i < init.len() ==> #[trigger] init[i] == program[i]);
        assert(forall|i: int| 0 <= i < init.len() ==> #[trigger] program[i] == init[i]);
        if let Decl::Import { module: path, .. } = program.last() {
            push_contains(program_imports(init), joined(path.deep_view(), "."@), module);
        }
    }
}

/// A module whose file is a program depends just on the modules that the program imports,
/// each listed once. The dependencies of another file cannot be told.
pub proof fn programs_depend_on_their_imports(module: Seq<char>, loaded: Loaded)
    ensures
        match loaded_imports(module, loaded) {
            Ok(deps) => loaded matches Loaded::Program(program) && deps.no_duplicates()
                && forall|d: Seq<char>| #[trigger]
                deps.contains(d) <==> imports_module(program@, d),
            Err(_) => !(loaded is Program),
        },
{
    if let Loaded::Program(program) = loaded {
        let names = program_imports(program@);
        listings_have_each_name_once(names);
        let deps = ordered(names.to_set());
        assert forall|d: Seq<char>| #[trigger] deps.contains(d) <==> imports_module(
            program@,
            d,
        ) by {
            imports_are_listed(program@, d);
        }
        assert forall|i: int, j: int| 0 <= i < deps.len() && 0 <= j < deps.len() && i
            != j implies deps[i] != deps[j] by {
            if i < j {
                assert(deps[i] != deps[j]);
            } else {
                assert(deps[j] != deps[i]);
            }
        }
    }
}

/// The graph of some headers has just the named modules, each with the modules that its
/// header imports.
pub proof fn headers_make_the_graph(items: Seq<HeaderModel>, module: Seq<char>)
    requires
        forall|i: int, j: int|
            0 <= i < j < items.len() && (#[trigger] items[i]).module_name is Some
                ==> items[i].module_name != (#[trigger] items[j]).module_name,
    ensures
        ({
            let g = graph_of_headers(Map::empty(), items);
            &&& g.dom().contains(module) ==> exists|i: int|
                0 <= i < items.len() && (#[trigger] items[i]).module_name == Some(module)
            &&& forall|i: int|
                0 <= i < items.len() && (#[trigger] items[i]).module_name == Some(module)
                    ==> g.dom().contains(module) && forall|d: Seq<char>| #[trigger]
                edge(g, module, d) <==> imports_of_header(items[i], d)
        }),
    decreases items.len(),
{
    if items.len() > 0 {
        let init = items.drop_last();
        let last = items.last();
        assert(items[items.len() - 1] == last);
        assert(forall|i: int| 0 <= i < init.len() ==> #[trigger] init[i] == items[i]);
        assert(forall|i: int| 0 <= i < init.len() ==> #[trigger] items[i] == init[i]);
        headers_make_the_graph(init, module);
        let names = last.imports.map_values(|i: ImportModel| i.module);
        listings_have_each_name_once(names);
        assert forall|d: Seq<char>| #[trigger] names.contains(d) <==> imports_of_header(
            last,
            d,
        ) by {
            if names.contains(d) {
                let i = choose|i: int| 0 <= i < names.len() && names[i] == d;
                assert(last.imports[i].module == d);
            }
            if imports_of_header(last, d) {
                let i = choose|i: int|
                    0 <= i < last.imports.len() && (#[trigger] last.imports[i]).module == d;
                assert(names[i] == d);
            }
        }
        let before = graph_of_headers(Map::empty(), init);
        let g = graph_of_headers(Map::empty(), items);
        assert forall|i: int|
            0 <= i < items.len() && (#[trigger] items[i]).module_name == Some(
                module,
            ) implies g.dom().contains(module) && forall|d: Seq<char>| #[trigger]
            edge(g, module, d) <==> imports_of_header(items[i], d) by {
            if i < init.len() {
                assert(init[i].module_name == Some(module));
                assert(items[i].module_name != items[items.len() - 1].module_name);
                assert(before.dom().contains(module));
                assert forall|d: Seq<char>| #[trigger]
                    edge(g, module, d) <==> imports_of_header(items[i], d) by {
                    assert(edge(before, module, d) <==> imports_of_header(init[i], d));
                }
            } else {
                assert forall|d: Seq<char>| #[trigger]
                    edge(g, module, d) <==> imports_of_header(items[i], d) by {
                    assert(names.contains(d) <==> imports_of_header(last, d));
                    assert(ordered(names.to_set()).contains(d) <==> names.contains(d));
                }
            }
        }
    }
}

/// Whether a header imports a module.
pub open spec fn imports_of_header(h: HeaderModel, module: Seq<char>) -> bool {
    exists|i: int| 0 <= i < h.imports.len() && (#[trigger] h.imports[i]).module == module
}

/// The graph of a project can be told just where every file of it is a program. It then
/// has just the modules of the project, each with the modules that its program imports.
pub proof fn files_make_the_graph(
    files: Map<Seq<char>, Loaded>,
    overlay: Map<Seq<char>, Loaded>,
    items: Seq<(Seq<char>, Seq<char>)>,
    module: Seq<char>,
)
    requires
        distinct_keys(items),
    ensures
        match graph_of_files(files, overlay, Map::empty(), items) {
            Ok(g) => {
                &&& forall|i: int|
                    0 <= i < items.len() ==> loaded_at(
                        files,
                        overlay,
                        (#[trigger] items[i]).1,
                    ) is Program
                &&& g.dom().contains(module) ==> has_key(items, module)
                &&& forall|i: int|
                    0 <= i < items.len() && (#[trigger] items[i]).0 == module ==> g.dom().contains(module) && (loaded_at(files, overlay, items[i].1) matches Loaded::Program(p)
                        && forall|d: Seq<char>| #[trigger]
                        edge(g, module, d) <==> imports_module(p@, d))
            },
            Err(_) => exists|i: int|
                0 <= i < items.len() && !(loaded_at(
                    files,
                    overlay,
                    (#[trigger] items[i]).1,
                ) is Program),
        },
    decreases items.len(),
{
    if items.len() > 0 {
        let init = items.drop_last();
        let last = items.last();
        let loaded = loaded_at(files, overlay, last.1);
        assert(items[items.len() - 1] == last);
        assert(forall|i: int| 0 <= i < init.len() ==> #[trigger] init[i] == items[i]);
        assert(forall|i: int| 0 <= i < init.len() ==> #[trigger] items[i] == init[i]);
        files_make_the_graph(files, overlay, init, module);
        programs_depend_on_their_imports(last.0, loaded);
        if let Ok(before) = graph_of_files(files, overlay, Map::empty(), init) {
            if let Ok(g) = graph_of_files(files, overlay, Map::empty(), items) {
                assert(g == before.insert(last.0, loaded_imports(last.0, loaded)->Ok_0));
                assert forall|i: int|
                    0 <= i < items.len() && (#[trigger] items[i]).0 == module implies g.dom().contains(module) && (loaded_at(files, overlay, items[i].1) matches Loaded::Program(p)
                    && forall|d: Seq<char>| #[trigger]
                    edge(g, module, d) <==> imports_module(p@, d)) by {
                    let p = loaded_at(files, overlay, items[i].1)->Program_0;
                    if i < init.len() {
                        assert(init[i].0 == module);
                        assert(items[i].0 != items[items.len() - 1].0);
                        assert forall|d: Seq<char>| #[trigger]
                            edge(g, module, d) <==> imports_module(p@, d) by {
                            assert(edge(before, module, d) <==> imports_module(p@, d));
                        }
                    } else {
                        assert forall|d: Seq<char>| #[trigger]
                            edge(g, module, d) <==> imports_module(p@, d) by {
                            assert(loaded_imports(last.0, loaded)->Ok_0.contains(d)
                                <==> imports_module(p@, d));
                        }
                    }
                }
            }
        }
    }
}

} // verus!
