//! Import scopes from headers alone, for modules that import each other.

use vstd::prelude::*;
use crate::header_decls::{HeaderModel, HeaderReExport, ModuleHeader, ReExportModel};
use crate::surface::{
    local_header_surface, local_surface, merged_surfaces, resolved_in, with_resolved,
    HeaderNamespace, HeaderResolved, HeaderSurface, Resolved, Surface, empty_surface,
};
use crate::table::{at_key, has_key, Table};
use crate::text::{concat3, concat5, text_eq};
use crate::values::{contains_name, contains_value, outcome, pop_value, push_value, reached};

verus! {

/// The headers of some modules.
pub type Headers = Seq<(Seq<char>, HeaderModel)>;

/// A name of a kind, seen from a module.
pub type Wanted = (Seq<char>, Seq<char>, HeaderNamespace);

pub open spec fn unknown_module(module: Seq<char>) -> Seq<char> {
    "unknown module '"@ + module + "'"@
}

pub open spec fn re_export_cycle(name: Seq<char>, module: Seq<char>) -> Seq<char> {
    "re-export cycle while resolving '"@ + name + "' from module '"@ + module + "'"@
}

/// The names that re-exports ask of other modules.
pub open spec fn asked_names(headers: Headers) -> Set<Seq<char>> {
    headers.fold_left(
        Set::empty(),
        |acc: Set<Seq<char>>, h: (Seq<char>, HeaderModel)| acc.union(asked_by(h.1)),
    )
}

pub open spec fn asked_by(h: HeaderModel) -> Set<Seq<char>> {
    h.re_exports.map_values(|e: ReExportModel| e.origin_name).to_set()
}

/// The names that a search can come upon and that are not under way.
pub open spec fn still_open(
    headers: Headers,
    path: Seq<Wanted>,
    name: Seq<char>,
    space: HeaderNamespace,
) -> Set<Wanted> {
    wanted_in(
        headers.map_values(|h: (Seq<char>, HeaderModel)| h.0).to_set(),
        asked_names(headers).union(path.map_values(|w: Wanted| w.1).to_set()).insert(name),
        space,
    ).difference(path.to_set())
}

pub open spec fn wanted_in(
    modules: Set<Seq<char>>,
    names: Set<Seq<char>>,
    space: HeaderNamespace,
) -> Set<Wanted> {
    Set::new(|w: Wanted| modules.contains(w.0) && names.contains(w.1) && w.2 == space)
}

proof fn wanted_in_is_finite(modules: Set<Seq<char>>, names: Set<Seq<char>>, space: HeaderNamespace)
    requires
        modules.finite(),
        names.finite(),
    ensures
        wanted_in(modules, names, space).finite(),
    decreases modules.len(),
{
    if modules.len() == 0 {
        assert(wanted_in(modules, names, space) =~= Set::empty());
    } else {
        let m = modules.choose();
        let rest = modules.remove(m);
        wanted_in_is_finite(rest, names, space);
        let f = |n: Seq<char>| (m, n, space);
        let here = names.map(f);
        names.lemma_map_finite(f);
        assert(wanted_in(modules, names, space) =~= wanted_in(rest, names, space).union(here)) by {
            assert forall|w: Wanted| #[trigger]
                wanted_in(modules, names, space).contains(w) implies wanted_in(
                rest,
                names,
                space,
            ).union(here).contains(w) by {
                if w.0 == m {
                    assert(here.contains(f(w.1)));
                }
            }
        }
    }
}

pub proof fn asked_names_has(headers: Headers, i: int, j: int)
    requires
        0 <= i < headers.len(),
        0 <= j < headers[i].1.re_exports.len(),
    ensures
        asked_names(headers).contains(headers[i].1.re_exports[j].origin_name),
    decreases headers.len(),
{
    let f = |acc: Set<Seq<char>>, h: (Seq<char>, HeaderModel)| acc.union(asked_by(h.1));
    reveal(Seq::fold_left);
    if i < headers.len() - 1 {
        asked_names_has(headers.drop_last(), i, j);
    } else {
        let names = headers[i].1.re_exports.map_values(|e: ReExportModel| e.origin_name);
        assert(names[j] == headers[i].1.re_exports[j].origin_name);
    }
}

proof fn asked_names_finite(headers: Headers)
    ensures
        asked_names(headers).finite(),
    decreases headers.len(),
{
    let f = |acc: Set<Seq<char>>, h: (Seq<char>, HeaderModel)| acc.union(asked_by(h.1));
    reveal(Seq::fold_left);
    if headers.len() > 0 {
        asked_names_finite(headers.drop_last());
        assert(asked_by(headers.last().1).finite());
    }
}

proof fn still_open_finite(
    headers: Headers,
    path: Seq<Wanted>,
    name: Seq<char>,
    space: HeaderNamespace,
)
    ensures
        still_open(headers, path, name, space).finite(),
{
    asked_names_finite(headers);
    wanted_in_is_finite(
        headers.map_values(|h: (Seq<char>, HeaderModel)| h.0).to_set(),
        asked_names(headers).union(path.map_values(|w: Wanted| w.1).to_set()).insert(name),
        space,
    );
}

/// A name that is taken up is no longer open.
pub proof fn open_shrinks(headers: Headers, path: Seq<Wanted>, at: Wanted)
    requires
        has_key(headers, at.0),
        !path.contains(at),
    ensures
        still_open(headers, path.push(at), at.1, at.2).len() < still_open(
            headers,
            path,
            at.1,
            at.2,
        ).len(),
{
    let before = still_open(headers, path, at.1, at.2);
    let after = still_open(headers, path.push(at), at.1, at.2);
    still_open_finite(headers, path, at.1, at.2);
    let names = path.map_values(|w: Wanted| w.1);
    let names2 = path.push(at).map_values(|w: Wanted| w.1);
    assert(names2 =~= names.push(at.1));
    assert forall|n: Seq<char>| names2.contains(n) <==> names.contains(n) || n == at.1 by {
        crate::seqs::push_contains(names, at.1, n);
    }
    assert forall|w: Wanted| path.push(at).contains(w) <==> path.contains(w) || w == at by {
        crate::seqs::push_contains(path, at, w);
    }
    let i = choose|i: int| 0 <= i < headers.len() && (#[trigger] headers[i]).0 == at.0;
    let modules = headers.map_values(|h: (Seq<char>, HeaderModel)| h.0);
    assert(modules[i] == at.0);
    assert(before.contains(at));
    assert(after =~= before.remove(at));
}

/// Asking for a name that re-exports ask for opens nothing new.
pub proof fn open_stays(
    headers: Headers,
    path: Seq<Wanted>,
    name: Seq<char>,
    other: Seq<char>,
    space: HeaderNamespace,
)
    requires
        asked_names(headers).contains(other),
    ensures
        still_open(
            headers,
            path,
            other,
            space,
        ).len() <= still_open(headers, path, name, space).len(),
{
    still_open_finite(headers, path, name, space);
    vstd::set_lib::lemma_len_subset(
        still_open(headers, path, other, space),
        still_open(headers, path, name, space),
    );
}

/// What a name stands for: a name that the module declares, or else the first
/// that a re-export leads to. `path` holds the names under way. A name that
/// leads back to itself through explicit re-exports is an error; one that comes
/// back through a re-export of everything is just not found there.
pub open spec fn found(headers: Headers, at: Wanted, path: Seq<Wanted>, strict: bool) -> Result<
    Option<Resolved>,
    Seq<char>,
>
    decreases still_open(headers, path, at.1, at.2).len(), 0nat,
{
    if path.contains(at) {
        if strict {
            Err(re_export_cycle(at.1, at.0))
        } else {
            Ok(None)
        }
    } else {
        match at_key(headers, at.0) {
            None => Err(unknown_module(at.0)),
            Some(h) => match resolved_in(local_surface(at.0, h), at.1, at.2) {
                Some(local) => Ok(Some(local)),
                None => {
                    proof {
                        open_shrinks(headers, path, at);
                    }
                    match found_by_item(headers, at, path.push(at), 0) {
                        Err(e) => Err(e),
                        Ok(Some(r)) => Ok(Some(r)),
                        Ok(None) => found_by_all(headers, at, path.push(at), 0),
                    }
                },
            },
        }
    }
}

/// What the explicit re-exports from the `i`-th on say of a name.
pub open spec fn found_by_item(headers: Headers, at: Wanted, path: Seq<Wanted>, i: nat) -> Result<
    Option<Resolved>,
    Seq<char>,
>
    decreases
            still_open(headers, path, at.1, at.2).len(),
            1 + re_exports_of(headers, at.0).len() - i,
{
    let edges = re_exports_of(headers, at.0);
    if i >= edges.len() {
        Ok(None)
    } else if edges[i as int].surface_name == at.1 {
        proof {
            let k = key_index_of(headers, at.0);
            asked_names_has(headers, k, i as int);
            open_stays(headers, path, at.1, edges[i as int].origin_name, at.2);
        }
        match found(
            headers,
            (edges[i as int].origin_module, edges[i as int].origin_name, at.2),
            path,
            true,
        ) {
            Err(e) => Err(e),
            Ok(Some(r)) => Ok(Some(r)),
            Ok(None) => found_by_item(headers, at, path, i + 1),
        }
    } else {
        found_by_item(headers, at, path, i + 1)
    }
}

/// What the re-exports of everything from the `i`-th on say of a name.
pub open spec fn found_by_all(headers: Headers, at: Wanted, path: Seq<Wanted>, i: nat) -> Result<
    Option<Resolved>,
    Seq<char>,
>
    decreases
            still_open(headers, path, at.1, at.2).len(),
            1 + re_export_alls_of(headers, at.0).len() - i,
{
    let edges = re_export_alls_of(headers, at.0);
    if i >= edges.len() {
        Ok(None)
    } else {
        match found(headers, (edges[i as int], at.1, at.2), path, false) {
            Err(e) => Err(e),
            Ok(Some(r)) => Ok(Some(r)),
            Ok(None) => found_by_all(headers, at, path, i + 1),
        }
    }
}

pub open spec fn key_index_of(headers: Headers, module: Seq<char>) -> int {
    crate::table::key_index(headers, module)
}

pub open spec fn re_exports_of(headers: Headers, module: Seq<char>) -> Seq<ReExportModel> {
    match at_key(headers, module) {
        Some(h) => h.re_exports,
        None => Seq::empty(),
    }
}

pub open spec fn re_export_alls_of(headers: Headers, module: Seq<char>) -> Seq<Seq<char>> {
    match at_key(headers, module) {
        Some(h) => h.re_export_all.map_values(
            |e: crate::header_decls::ReExportAllModel| e.origin_module,
        ),
        None => Seq::empty(),
    }
}

/// What a name of a kind stands for, seen from a module.
pub open spec fn name_found(
    headers: Headers,
    module: Seq<char>,
    name: Seq<char>,
    space: HeaderNamespace,
) -> Result<
    Option<Resolved>,
    Seq<char>,
> {
    found(headers, (module, name, space), Seq::empty(), true)
}

fn resolve_header_surface_name_inner(
    headers: &Table<String, ModuleHeader>,
    module: &str,
    name: &str,
    space: HeaderNamespace,
    path: &mut Vec<(String, String, HeaderNamespace)>,
    strict: bool,
) -> (r: Result<Option<HeaderResolved>, String>)
    ensures
        outcome(r) == found(
            headers.order(),
            (module@, name@, space),
            old(path).deep_view(),
            strict,
        ),
        r is Ok ==> final(path).deep_view() == old(path).deep_view(),
    decreases still_open(headers.order(), old(path).deep_view(), name@, space).len(), 0nat,
{
    let key = (module.to_owned(), name.to_owned(), space);
    let ghost at: Wanted = (module@, name@, space);
    assert(key.deep_view() == at);
    let ghost path0 = path.deep_view();
    if contains_value(path, &key) {
        if strict {
            return Err(
                concat5("re-export cycle while resolving '", name, "' from module '", module, "'"),
            );
        }
        return Ok(None);
    }
    push_value(path, key);
    match headers.named(module) {
        None => Err(concat3("unknown module '", module, "'")),
        Some(header) => {
            if let Some(local) = local_header_surface(module, header).resolve(name, space) {
                pop_value(path);
                assert(path.deep_view() =~= path0);
                return Ok(Some(local));
            }
            proof {
                open_shrinks(headers.order(), path0, at);
            }
            match resolve_by_item(headers, header, module, name, space, path, 0) {
                Err(e) => {
                    return Err(e);
                },
                Ok(Some(resolved)) => {
                    pop_value(path);
                    assert(path.deep_view() =~= path0);
                    return Ok(Some(resolved));
                },
                Ok(None) => {},
            }
            match resolve_by_all(headers, header, module, name, space, path, 0) {
                Err(e) => Err(e),
                Ok(resolved) => {
                    pop_value(path);
                    assert(path.deep_view() =~= path0);
                    Ok(resolved)
                },
            }
        },
    }
}

fn resolve_by_item(
    headers: &Table<String, ModuleHeader>,
    header: &ModuleHeader,
    module: &str,
    name: &str,
    space: HeaderNamespace,
    path: &mut Vec<(String, String, HeaderNamespace)>,
    i: usize,
) -> (r: Result<Option<HeaderResolved>, String>)
    requires
        at_key(headers.order(), module@) == Some(header.deep_view()),
    ensures
        outcome(r) == found_by_item(
            headers.order(),
            (module@, name@, space),
            old(path).deep_view(),
            i as nat,
        ),
        r is Ok ==> final(path).deep_view() == old(path).deep_view(),
    decreases
            still_open(headers.order(), old(path).deep_view(), name@, space).len(),
            1 + header.re_exports.len() - i,
{
    let ghost edges = re_exports_of(headers.order(), module@);
    assert(edges.len() == header.re_exports.len());
    if i >= header.re_exports.len() {
        return Ok(None);
    }
    let edge = &header.re_exports[i];
    assert(edges[i as int] == edge.deep_view());
    if text_eq(edge.surface_name.as_str(), name) {
        proof {
            asked_names_has(headers.order(), key_index_of(headers.order(), module@), i as int);
            open_stays(
                headers.order(),
                path.deep_view(),
                name@,
                edges[i as int].origin_name,
                space,
            );
        }
        match resolve_header_surface_name_inner(
            headers,
            edge.origin_module.as_str(),
            edge.origin_name.as_str(),
            space,
            path,
            true,
        ) {
            Err(e) => {
                return Err(e);
            },
            Ok(Some(resolved)) => {
                return Ok(Some(resolved));
            },
            Ok(None) => {},
        }
    }
    resolve_by_item(headers, header, module, name, space, path, i + 1)
}

fn resolve_by_all(
    headers: &Table<String, ModuleHeader>,
    header: &ModuleHeader,
    module: &str,
    name: &str,
    space: HeaderNamespace,
    path: &mut Vec<(String, String, HeaderNamespace)>,
    i: usize,
) -> (r: Result<Option<HeaderResolved>, String>)
    requires
        at_key(headers.order(), module@) == Some(header.deep_view()),
    ensures
        outcome(r) == found_by_all(
            headers.order(),
            (module@, name@, space),
            old(path).deep_view(),
            i as nat,
        ),
        r is Ok ==> final(path).deep_view() == old(path).deep_view(),
    decreases
            still_open(headers.order(), old(path).deep_view(), name@, space).len(),
            1 + header.re_export_all.len() - i,
{
    let ghost edges = re_export_alls_of(headers.order(), module@);
    assert(edges.len() == header.re_export_all.len());
    if i >= header.re_export_all.len() {
        return Ok(None);
    }
    let edge = &header.re_export_all[i];
    assert(edges[i as int] == edge.origin_module@);
    match resolve_header_surface_name_inner(
        headers,
        edge.origin_module.as_str(),
        name,
        space,
        path,
        false,
    ) {
        Err(e) => {
            return Err(e);
        },
        Ok(Some(resolved)) => {
            return Ok(Some(resolved));
        },
        Ok(None) => {},
    }
    resolve_by_all(headers, header, module, name, space, path, i + 1)
}

/// What a name of a kind stands for, seen from a module.
pub fn resolve_header_surface_name(
    headers: &Table<String, ModuleHeader>,
    module: &str,
    name: &str,
    space: HeaderNamespace,
) -> (r: Result<Option<HeaderResolved>, String>)
    ensures
        outcome(r) == name_found(headers.order(), module@, name@, space),
{
    let mut path: Vec<(String, String, HeaderNamespace)> = Vec::new();
    assert(path.deep_view() =~= Seq::empty());
    resolve_header_surface_name_inner(headers, module, name, space, &mut path, true)
}

/// The kinds of names, in the order in which a re-export looks them up.
pub open spec fn namespaces() -> Seq<HeaderNamespace> {
    seq![
        HeaderNamespace::Value,
        HeaderNamespace::Handler,
        HeaderNamespace::Type,
        HeaderNamespace::Constructor,
        HeaderNamespace::Trait,
        HeaderNamespace::Effect,
    ]
}

pub open spec fn with_edge_in(
    headers: Headers,
    edge: ReExportModel,
    s: Surface,
    space: HeaderNamespace,
) -> Result<Surface, Seq<char>> {
    match name_found(headers, edge.origin_module, edge.origin_name, space) {
        Err(e) => Err(e),
        Ok(None) => Ok(s),
        Ok(Some(r)) => Ok(with_resolved(s, edge.origin_name, edge.surface_name, space, r)),
    }
}

/// A surface with what one re-exported name stands for in each of some kinds.
pub open spec fn with_edge_in_each(
    headers: Headers,
    edge: ReExportModel,
    acc: Surface,
    items: Seq<HeaderNamespace>,
) -> Result<Surface, Seq<char>>
    decreases items.len(),
{
    if items.len() == 0 {
        Ok(acc)
    } else {
        match with_edge_in_each(headers, edge, acc, items.drop_last()) {
            Ok(acc) => with_edge_in(headers, edge, acc, items.last()),
            Err(e) => Err(e),
        }
    }
}

/// The first failure is the outcome.
proof fn with_edge_in_each_stops(
    headers: Headers,
    edge: ReExportModel,
    acc: Surface,
    items: Seq<HeaderNamespace>,
    n: int,
)
    requires
        0 <= n <= items.len(),
        with_edge_in_each(headers, edge, acc, items.take(n)) is Err,
    ensures
        with_edge_in_each(headers, edge, acc, items) == with_edge_in_each(
            headers,
            edge,
            acc,
            items.take(n),
        ),
    decreases items.len(),
{
    if n < items.len() {
        assert(items.drop_last().take(n) =~= items.take(n));
        with_edge_in_each_stops(headers, edge, acc, items.drop_last(), n);
    } else {
        assert(items.take(n) =~= items);
    }
}

/// A surface with what one re-exported name stands for.
pub open spec fn with_edge(headers: Headers, s: Surface, edge: ReExportModel) -> Result<
    Surface,
    Seq<char>,
> {
    with_edge_in_each(headers, edge, s, namespaces())
}

pub open spec fn with_edges(
    headers: Headers,
    acc: Surface,
    items: Seq<ReExportModel>,
) -> Result<Surface, Seq<char>>
    decreases items.len(),
{
    if items.len() == 0 {
        Ok(acc)
    } else {
        match with_edges(headers, acc, items.drop_last()) {
            Ok(acc) => with_edge(headers, acc, items.last()),
            Err(e) => Err(e),
        }
    }
}

/// The first failure is the outcome.
proof fn with_edges_stops(headers: Headers, acc: Surface, items: Seq<ReExportModel>, n: int)
    requires
        0 <= n <= items.len(),
        with_edges(headers, acc, items.take(n)) is Err,
    ensures
        with_edges(headers, acc, items) == with_edges(headers, acc, items.take(n)),
    decreases items.len(),
{
    if n < items.len() {
        assert(items.drop_last().take(n) =~= items.take(n));
        with_edges_stops(headers, acc, items.drop_last(), n);
    } else {
        assert(items.take(n) =~= items);
    }
}

fn merge_edge_in_each(
    headers: &Table<String, ModuleHeader>,
    edge: &HeaderReExport,
    acc: &mut HeaderSurface,
    items: &Vec<HeaderNamespace>,
) -> (r: Result<(), String>)
    ensures
        with_edge_in_each(
            headers.order(),
            edge.deep_view(),
            old(acc).deep_view(),
            items.deep_view(),
        ) == reached(r, final(acc).deep_view()),
{
    let ghost a0 = acc.deep_view();
    let ghost all = items.deep_view();
    let mut i: usize = 0;
    assert(all.take(0) =~= Seq::empty());
    while i < items.len()
        invariant
            i <= items.len(),
            all == items.deep_view(),
            a0 == old(acc).deep_view(),
            with_edge_in_each(
                headers.order(),
                edge.deep_view(),
                a0,
                all.take(i as int),
            ) == Ok::<_, Seq<char>>(acc.deep_view()),
        decreases items.len() - i,
    {
        proof {
            assert(all.take(i + 1).drop_last() =~= all.take(i as int));
            assert(all.take(i + 1).last() == all[i as int]);
        }
        let space = items[i];
        let r: Result<(), String> = match resolve_header_surface_name(
            headers,
            edge.origin_module.as_str(),
            edge.origin_name.as_str(),
            space,
        ) {
            Err(e) => Err(e),
            Ok(None) => Ok(()),
            Ok(Some(resolved)) => {
                acc.insert_resolved(
                    edge.origin_name.as_str(),
                    edge.surface_name.as_str(),
                    space,
                    resolved,
                );
                Ok(())
            },
        };
        if let Err(e) = r {
            proof {
                with_edge_in_each_stops(headers.order(), edge.deep_view(), a0, all, i + 1);
            }
            return Err(e);
        }
        i = i + 1;
    }
    assert(all.take(i as int) =~= all);
    Ok(())
}

/// Adds what one re-exported name stands for.
fn merge_explicit_header_re_export(
    headers: &Table<String, ModuleHeader>,
    surface: &mut HeaderSurface,
    edge: &HeaderReExport,
) -> (r: Result<(), String>)
    ensures
        with_edge(headers.order(), old(surface).deep_view(), edge.deep_view()) == reached(
            r,
            final(surface).deep_view(),
        ),
{
    let spaces = vec![
        HeaderNamespace::Value,
        HeaderNamespace::Handler,
        HeaderNamespace::Type,
        HeaderNamespace::Constructor,
        HeaderNamespace::Trait,
        HeaderNamespace::Effect,
    ];
    assert(spaces.deep_view() =~= namespaces());
    merge_edge_in_each(headers, edge, surface, &spaces)
}

fn merge_edges(
    headers: &Table<String, ModuleHeader>,
    acc: &mut HeaderSurface,
    items: &Vec<HeaderReExport>,
) -> (r: Result<(), String>)
    ensures
        with_edges(
            headers.order(),
            old(acc).deep_view(),
            items.deep_view(),
        ) == reached(r, final(acc).deep_view()),
{
    let ghost a0 = acc.deep_view();
    let ghost all = items.deep_view();
    let mut i: usize = 0;
    assert(all.take(0) =~= Seq::empty());
    while i < items.len()
        invariant
            i <= items.len(),
            all == items.deep_view(),
            a0 == old(acc).deep_view(),
            with_edges(
                headers.order(),
                a0,
                all.take(i as int),
            ) == Ok::<_, Seq<char>>(acc.deep_view()),
        decreases items.len() - i,
    {
        proof {
            assert(all.take(i + 1).drop_last() =~= all.take(i as int));
            assert(all.take(i + 1).last() == all[i as int]);
        }
        let r = merge_explicit_header_re_export(headers, acc, &items[i]);
        if let Err(e) = r {
            proof {
                with_edges_stops(headers.order(), a0, all, i + 1);
            }
            return Err(e);
        }
        i = i + 1;
    }
    assert(all.take(i as int) =~= all);
    Ok(())
}

/// The modules whose surfaces are not under way.
pub open spec fn modules_left(headers: Headers, visiting: Seq<Seq<char>>) -> Set<Seq<char>> {
    headers.map_values(|h: (Seq<char>, HeaderModel)| h.0).to_set().difference(visiting.to_set())
}

pub proof fn modules_left_shrinks(headers: Headers, visiting: Seq<Seq<char>>, module: Seq<char>)
    requires
        has_key(headers, module),
        !visiting.contains(module),
    ensures
        modules_left(headers, visiting.push(module)).len() < modules_left(headers, visiting).len(),
{
    let before = modules_left(headers, visiting);
    let modules = headers.map_values(|h: (Seq<char>, HeaderModel)| h.0);
    let i = choose|i: int| 0 <= i < headers.len() && (#[trigger] headers[i]).0 == module;
    assert(modules[i] == module);
    assert(before.contains(module));
    assert forall|m: Seq<char>| visiting.push(module).contains(m) <==> visiting.contains(m) || m
        == module by {
        crate::seqs::push_contains(visiting, module, m);
    }
    assert(modules_left(headers, visiting.push(module)) =~= before.remove(module));
}

/// The public surface of a module: what it declares, then its explicit
/// re-exports, then what it re-exports whole. A module whose surface is under
/// way adds nothing.
pub open spec fn surface_of(
    headers: Headers,
    module: Seq<char>,
    visiting: Seq<Seq<char>>,
) -> Result<
    Surface,
    Seq<char>,
>
    decreases modules_left(headers, visiting).len(), 0nat,
{
    if visiting.contains(module) {
        Ok(empty_surface())
    } else {
        match at_key(headers, module) {
            None => Err(unknown_module(module)),
            Some(h) => match with_edges(headers, local_surface(module, h), h.re_exports) {
                Err(e) => Err(e),
                Ok(s) => {
                    proof {
                        modules_left_shrinks(headers, visiting, module);
                    }
                    with_surfaces(headers, s, module, visiting.push(module), 0)
                },
            },
        }
    }
}

/// A surface with those that a module re-exports whole, from the `i`-th on.
pub open spec fn with_surfaces(
    headers: Headers,
    s: Surface,
    module: Seq<char>,
    visiting: Seq<Seq<char>>,
    i: nat,
) -> Result<Surface, Seq<char>>
    decreases
            modules_left(headers, visiting).len(),
            1 + re_export_alls_of(headers, module).len() - i,
{
    let edges = re_export_alls_of(headers, module);
    if i >= edges.len() {
        Ok(s)
    } else {
        match surface_of(headers, edges[i as int], visiting) {
            Err(e) => Err(e),
            Ok(t) => with_surfaces(headers, merged_surfaces(s, t), module, visiting, i + 1),
        }
    }
}

fn collect_header_surface(
    headers: &Table<String, ModuleHeader>,
    module: &str,
    visiting: &mut Vec<String>,
) -> (r: Result<HeaderSurface, String>)
    ensures
        outcome(r) == surface_of(headers.order(), module@, old(visiting).deep_view()),
        r is Ok ==> final(visiting).deep_view() == old(visiting).deep_view(),
    decreases modules_left(headers.order(), old(visiting).deep_view()).len(), 0nat,
{
    let ghost visiting0 = visiting.deep_view();
    if contains_name(visiting, module) {
        return Ok(HeaderSurface::new());
    }
    push_value(visiting, module.to_owned());
    match headers.named(module) {
        None => Err(concat3("unknown module '", module, "'")),
        Some(header) => {
            let mut surface = local_header_surface(module, header);
            match merge_edges(headers, &mut surface, &header.re_exports) {
                Err(e) => {
                    return Err(e);
                },
                Ok(_) => {},
            }
            proof {
                modules_left_shrinks(headers.order(), visiting0, module@);
            }
            match collect_re_exported(headers, header, surface, module, visiting, 0) {
                Err(e) => Err(e),
                Ok(s) => {
                    pop_value(visiting);
                    assert(visiting.deep_view() =~= visiting0);
                    Ok(s)
                },
            }
        },
    }
}

fn collect_re_exported(
    headers: &Table<String, ModuleHeader>,
    header: &ModuleHeader,
    surface: HeaderSurface,
    module: &str,
    visiting: &mut Vec<String>,
    i: usize,
) -> (r: Result<HeaderSurface, String>)
    requires
        at_key(headers.order(), module@) == Some(header.deep_view()),
    ensures
        outcome(r) == with_surfaces(
            headers.order(),
            surface.deep_view(),
            module@,
            old(visiting).deep_view(),
            i as nat,
        ),
        r is Ok ==> final(visiting).deep_view() == old(visiting).deep_view(),
    decreases
            modules_left(headers.order(), old(visiting).deep_view()).len(),
            1 + header.re_export_all.len() - i,
{
    let ghost edges = re_export_alls_of(headers.order(), module@);
    assert(edges.len() == header.re_export_all.len());
    if i >= header.re_export_all.len() {
        return Ok(surface);
    }
    let edge = &header.re_export_all[i];
    assert(edges[i as int] == edge.origin_module@);
    match collect_header_surface(headers, edge.origin_module.as_str(), visiting) {
        Err(e) => Err(e),
        Ok(imported) => {
            let mut surface = surface;
            surface.merge(&imported);
            collect_re_exported(headers, header, surface, module, visiting, i + 1)
        },
    }
}

/// The public surface of a module.
pub fn public_header_surface(headers: &Table<String, ModuleHeader>, module: &str) -> (r: Result<
    HeaderSurface,
    String,
>)
    ensures
        outcome(r) == surface_of(headers.order(), module@, Seq::empty()),
{
    let mut visiting: Vec<String> = Vec::new();
    assert(visiting.deep_view() =~= Seq::empty());
    collect_header_surface(headers, module, &mut visiting)
}

} // verus!
