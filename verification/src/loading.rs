//! Loading modules: where a module is found, what the checker of a module starts
//! from, and what is kept of it.
//!
//! Reading, lexing and parsing a module are done elsewhere. [`Checker::load_module`]
//! says what is to be done, and [`Checker::adopt_module`] takes what came of it. Modules
//! that import each other are loaded together, as [`crate::cycle_run`] says.

use vstd::prelude::*;
use crate::ast::{Decl, ExposedItem, Exposing};
use crate::canonical_exports::{fields_fit, import_merged, with_canonical_exports};
use crate::checker::{Checker, CheckerModel, LspModel, TraitStateModel};
use crate::codegen_info::{CodegenModel, ModuleCodegenInfo};
use crate::diagnostics::{an_error_at, Diag, Diagnostic};
use crate::exports::{collected_exports, targets_fit};
use crate::header_decls::{HeaderExposing, ModuleHeader};
use crate::header_scope::{header_import_scope, resolve_header_import};
use crate::impls::{find_names_outside, names_outside};
use crate::import_scope::synthesize_all_exposed;
use crate::infos::{ExportsModel, MethodModel, ModuleExports, TraitInfo, TraitMethodInfo, TraitModel};
use crate::scan::{ModuleVisibility, VisibilityModel};
use crate::schemes::EnvModel;
use crate::scope::{lookup, merged_scopes, ScopeMap};
use crate::seqs::{add_new, add_new_one, push_new};
use crate::table::{at_key, has_key, lists, put, put_all_new, put_new, put_then_get, Table};
use crate::text::{begins_with, concat3, concat4, join_text, joined, starts_with, text_eq};
use crate::token::Span;
use crate::traits::key_is_put;
use crate::values::{contains_name, outcome, push_value, Dup};

verus! {

/// Where the modules of a project are found.
pub struct ModulePaths {
    pub project_root: Option<String>,
    /// The modules that every package may import, with their files.
    pub map: Option<Table<String, String>>,
    /// The package of each module.
    pub visibility: Option<Table<String, ModuleVisibility>>,
    /// The modules of each package that only the package may import.
    pub private_modules: Option<Table<String, Table<String, String>>>,
}

#[verifier::ext_equal]
pub struct PathsModel {
    pub project_root: Option<Seq<char>>,
    pub map: Option<Map<Seq<char>, Seq<char>>>,
    pub visibility: Option<Map<Seq<char>, VisibilityModel>>,
    pub private_modules: Option<Map<Seq<char>, Map<Seq<char>, Seq<char>>>>,
}

impl DeepView for ModulePaths {
    type V = PathsModel;

    open spec fn deep_view(&self) -> PathsModel {
        PathsModel {
            project_root: self.project_root.deep_view(),
            map: self.map.deep_view(),
            visibility: self.visibility.deep_view(),
            private_modules: self.private_modules.deep_view(),
        }
    }
}

impl Dup for ModulePaths {
    fn dup(&self) -> (r: Self) {
        ModulePaths {
            project_root: self.project_root.dup(),
            map: self.map.dup(),
            visibility: self.visibility.dup(),
            private_modules: self.private_modules.dup(),
        }
    }
}

/// The package of the module that imports.
pub open spec fn importer_package(
    p: PathsModel,
    current_module: Option<Seq<char>>,
) -> Option<Seq<char>> {
    match current_module {
        Some(module) => match p.visibility {
            Some(v) => if v.dom().contains(module) {
                Some(v[module].package)
            } else {
                None
            },
            None => None,
        },
        None => None,
    }
}

/// The file of a private module of a package.
pub open spec fn private_file(p: PathsModel, package: Option<Seq<char>>, name: Seq<char>) -> Option<
    Seq<char>,
> {
    match package {
        Some(pkg) => match p.private_modules {
            Some(pm) => if pm.dom().contains(pkg) {
                lookup(pm[pkg], name)
            } else {
                None
            },
            None => None,
        },
        None => None,
    }
}

/// The file of a module that a module may import: one that every package may
/// import, or a private one of its own package.
pub open spec fn module_file(
    p: PathsModel,
    current_module: Option<Seq<char>>,
    name: Seq<char>,
) -> Option<
    Seq<char>,
> {
    let global = match p.map {
        Some(map) => lookup(map, name),
        None => None,
    };
    match global {
        Some(path) => Some(path),
        None => private_file(p, importer_package(p, current_module), name),
    }
}

/// Whether a module is a private one of another package.
pub open spec fn is_private_elsewhere(
    p: PathsModel,
    package: Option<Seq<char>>,
    name: Seq<char>,
) -> bool {
    p.private_modules matches Some(pm) && exists|pkg: Seq<char>|
        #[trigger] pm.dom().contains(pkg) && package != Some(pkg) && pm[pkg].dom().contains(name)
}

/// Where a module is found, or why it cannot be imported. Modules of the language
/// have no file.
pub open spec fn located(
    c: CheckerModel,
    p: PathsModel,
    name: Seq<char>,
    builtin: bool,
    span: Span,
) -> Result<Option<Seq<char>>, Diag> {
    if p.project_root is None && !builtin {
        Err(
            an_error_at(
                span,
                "cannot import '"@ + name
                    + "': user module imports require a project (create a project.toml)"@,
            ),
        )
    } else if c.loading.contains(name) {
        Err(
            an_error_at(
                span,
                "internal error: module '"@ + name
                    + "' is already loading outside the active import SCC"@,
            ),
        )
    } else if builtin {
        Ok(None)
    } else {
        match module_file(p, c.current_module, name) {
            Some(path) => Ok(Some(path)),
            None => if is_private_elsewhere(p, importer_package(p, c.current_module), name) {
                Err(
                    an_error_at(
                        span,
                        "module '"@ + name
                            + "' is private to its package and not listed in `expose`"@,
                    ),
                )
            } else {
                Err(an_error_at(span, "unknown module '"@ + name + "'"@))
            },
        }
    }
}

fn find_package(p: &ModulePaths, current_module: &Option<String>) -> (r: Option<String>)
    ensures
        r.deep_view() == importer_package(p.deep_view(), current_module.deep_view()),
{
    match current_module {
        Some(module) => match &p.visibility {
            Some(v) => match v.get(module) {
                Some(own) => Some(own.package.clone()),
                None => None,
            },
            None => None,
        },
        None => None,
    }
}

fn find_private(p: &ModulePaths, package: &Option<String>, name: &str) -> (r: Option<String>)
    ensures
        r.deep_view() == private_file(p.deep_view(), package.deep_view(), name@),
{
    match package {
        Some(pkg) => match &p.private_modules {
            Some(pm) => match pm.get(pkg) {
                Some(own) => match own.named(name) {
                    Some(path) => Some(path.clone()),
                    None => None,
                },
                None => None,
            },
            None => None,
        },
        None => None,
    }
}

fn find_elsewhere(p: &ModulePaths, package: &Option<String>, name: &str) -> (r: bool)
    ensures
        r == is_private_elsewhere(p.deep_view(), package.deep_view(), name@),
{
    let pm = match &p.private_modules {
        Some(pm) => pm,
        None => {
            return false;
        },
    };
    let ghost all = pm.order();
    let n = pm.len();
    let mut i: usize = 0;
    while i < n
        invariant
            i <= n,
            n == all.len(),
            all == pm.order(),
            p.deep_view().private_modules == Some(pm.deep_view()),
            lists(all, pm.deep_view()),
            forall|j: int|
                0 <= j < i ==> package.deep_view() == Some((#[trigger] all[j]).0)
                    || !all[j].1.dom().contains(name@),
        decreases n - i,
    {
        let own = match package {
            Some(pkg) => text_eq(pkg.as_str(), pm.key(i).as_str()),
            None => false,
        };
        if !own && pm.value(i).has_name(name) {
            proof {
                let k = all[i as int].0;
                assert(pm.deep_view().dom().contains(k) && pm.deep_view()[k] == all[i as int].1);
                assert(package.deep_view() != Some(k));
                assert(pm.deep_view()[k].dom().contains(name@));
                let m = p.deep_view().private_modules->Some_0;
                assert(m == pm.deep_view());
                assert(m.dom().contains(k) && package.deep_view() != Some(k)
                    && m[k].dom().contains(name@));
            }
            return true;
        }
        i = i + 1;
    }
    false
}

/// What is to be done to load a module.
pub enum LoadStep {
    /// Nothing: these are its exports.
    Cached(ModuleExports),
    /// The modules that import each other with it are to be loaded together.
    Cycle(Vec<String>),
    /// Its source is to be read: from a file, or from the language.
    Read(Option<String>),
}

#[verifier::ext_equal]
pub enum LoadStepModel {
    Cached(ExportsModel),
    Cycle(Seq<Seq<char>>),
    Read(Option<Seq<char>>),
}

impl DeepView for LoadStep {
    type V = LoadStepModel;

    open spec fn deep_view(&self) -> LoadStepModel {
        match self {
            LoadStep::Cached(x) => LoadStepModel::Cached(x.deep_view()),
            LoadStep::Cycle(modules) => LoadStepModel::Cycle(modules.deep_view()),
            LoadStep::Read(path) => LoadStepModel::Read(path.deep_view()),
        }
    }
}

/// What is to be done to load a module, or why it cannot be. `together` are the
/// modules that import each other with it, if any; within such modules it is
/// loaded by itself.
pub open spec fn load_step(
    c: CheckerModel,
    p: PathsModel,
    name: Seq<char>,
    builtin: bool,
    within_cycle: bool,
    together: Option<Seq<Seq<char>>>,
    span: Span,
) -> Result<LoadStepModel, Diag> {
    match located(c, p, name, builtin, span) {
        Err(d) => Err(d),
        Ok(path) => match at_key(c.exports, name) {
            Some(x) => Ok(LoadStepModel::Cached(x)),
            None => match together {
                Some(modules) => if !builtin && !within_cycle {
                    Ok(LoadStepModel::Cycle(modules))
                } else {
                    Ok(LoadStepModel::Read(path))
                },
                None => Ok(LoadStepModel::Read(path)),
            },
        },
    }
}

impl Checker {
    fn locate_module(&self, p: &ModulePaths, name: &str, builtin: bool, span: Span) -> (r: Result<
        Option<String>,
        Diagnostic,
    >)
        ensures
            outcome(r) == located(self.deep_view(), p.deep_view(), name@, builtin, span),
    {
        if p.project_root.is_none() && !builtin {
            let message = concat3(
                "cannot import '",
                name,
                "': user module imports require a project (create a project.toml)",
            );
            return Err(Diagnostic::error_at(span, message));
        }
        if contains_name(&self.loading, name) {
            let message = concat3(
                "internal error: module '",
                name,
                "' is already loading outside the active import SCC",
            );
            return Err(Diagnostic::error_at(span, message));
        }
        if builtin {
            return Ok(None);
        }
        if let Some(map) = &p.map {
            if let Some(path) = map.named(name) {
                return Ok(Some(path.clone()));
            }
        }
        let package = find_package(p, &self.current_module);
        if let Some(path) = find_private(p, &package, name) {
            return Ok(Some(path));
        }
        let message = if find_elsewhere(p, &package, name) {
            concat3(
                "module '",
                name,
                "' is private to its package and not listed in `expose`",
            )
        } else {
            concat3("unknown module '", name, "'")
        };
        Err(Diagnostic::error_at(span, message))
    }

    /// What is to be done to load a module. Whether a module may be imported is
    /// settled before the exports that are kept of it are looked at.
    pub fn load_module(
        &self,
        paths: &ModulePaths,
        name: &str,
        builtin: bool,
        within_cycle: bool,
        together: Option<Vec<String>>,
        span: Span,
    ) -> (r: Result<LoadStep, Diagnostic>)
        ensures
            outcome(r) == load_step(
                self.deep_view(),
                paths.deep_view(),
                name@,
                builtin,
                within_cycle,
                together.deep_view(),
                span,
            ),
    {
        let path = match self.locate_module(paths, name, builtin, span) {
            Ok(path) => path,
            Err(d) => {
                return Err(d);
            },
        };
        if let Some(x) = self.exports.named(name) {
            return Ok(LoadStep::Cached(x.dup()));
        }
        if !builtin && !within_cycle {
            if let Some(modules) = together {
                return Ok(LoadStep::Cycle(modules));
            }
        }
        Ok(LoadStep::Read(path))
    }

    /// Notes that a module is being loaded.
    pub fn begin_loading(&mut self, name: &str)
        ensures
            final(self).deep_view() == (CheckerModel {
                loading: add_new(old(self).deep_view().loading, seq![name@]),
                ..old(self).deep_view()
            }),
    {
        proof {
            add_new_one(self.loading.deep_view(), name@);
        }
        push_new(&mut self.loading, name.to_owned());
    }

    /// Notes that modules are no longer being loaded.
    pub fn end_loading(&mut self, names: &Vec<String>)
        ensures
            final(self).deep_view() == (CheckerModel {
                loading: names_outside(old(self).deep_view().loading, names.deep_view()),
                ..old(self).deep_view()
            }),
    {
        self.loading = find_names_outside(&self.loading, names);
    }
}

/// Why the source of a module could not be used.
pub enum LoadFault {
    Unreadable,
    NotLexed,
    NotParsed,
    IllTyped,
}

pub open spec fn fault_text(fault: LoadFault) -> Seq<char> {
    match fault {
        LoadFault::Unreadable => "cannot read module '"@,
        LoadFault::NotLexed => "lex error in module '"@,
        LoadFault::NotParsed => "parse error in module '"@,
        LoadFault::IllTyped => "type error in module '"@,
    }
}

/// The complaint that the source of a module could not be used.
pub fn load_fault(fault: LoadFault, module: &str, message: &str, span: Span) -> (r: Diagnostic)
    ensures
        r@ == an_error_at(span, fault_text(fault) + module@ + "': "@ + message@),
{
    let start = match fault {
        LoadFault::Unreadable => "cannot read module '",
        LoadFault::NotLexed => "lex error in module '",
        LoadFault::NotParsed => "parse error in module '",
        LoadFault::IllTyped => "type error in module '",
    };
    Diagnostic::error_at(span, concat4(start, module, "': ", message))
}

/// The state with what the checker of a module learnt on the way: variables, their
/// kinds, and other modules.
pub open spec fn with_caches(c: CheckerModel, mc: CheckerModel) -> CheckerModel {
    CheckerModel {
        next_var: if mc.next_var > c.next_var {
            mc.next_var
        } else {
            c.next_var
        },
        var_kinds: put_all_new(c.var_kinds, mc.var_kinds),
        exports: put_all_new(c.exports, mc.exports),
        codegen_info: put_all_new(c.codegen_info, mc.codegen_info),
        ..c
    }
}

/// The state with a module that was checked.
pub open spec fn with_module(
    c: CheckerModel,
    name: Seq<char>,
    mc: CheckerModel,
    x: ExportsModel,
    g: CodegenModel,
) -> CheckerModel {
    let c1 = with_caches(c, mc);
    CheckerModel {
        exports: put(c1.exports, name, x),
        codegen_info: put(c1.codegen_info, name, g),
        loading: names_outside(c.loading, seq![name]),
        base_trait_impls: if begins_with(name, "Std."@) {
            put_all_new(c.base_trait_impls, x.trait_impls)
        } else {
            c.base_trait_impls
        },
        ..c1
    }
}

impl Checker {
    /// Takes over what the checker of a module learnt on the way.
    pub fn take_caches(&mut self, mc: &Checker)
        ensures
            final(self).deep_view() == with_caches(old(self).deep_view(), mc.deep_view()),
    {
        if mc.next_var > self.next_var {
            self.next_var = mc.next_var;
        }
        self.var_kinds.put_all_new(&mc.var_kinds);
        self.exports.put_all_new(&mc.exports);
        self.codegen_info.put_all_new(&mc.codegen_info);
    }

    /// Takes a module that was checked: its exports, and what code generation needs
    /// to know of it. The impls of a standard module are there for the standard
    /// modules that are loaded later.
    pub fn adopt_module(
        &mut self,
        name: &str,
        mc: &Checker,
        exports: ModuleExports,
        codegen: ModuleCodegenInfo,
    )
        ensures
            final(self).deep_view() == with_module(
                old(self).deep_view(),
                name@,
                mc.deep_view(),
                exports.deep_view(),
                codegen.deep_view(),
            ),
    {
        self.take_caches(mc);
        let mut names: Vec<String> = Vec::new();
        push_value(&mut names, name.to_owned());
        assert(names.deep_view() =~= seq![name@]);
        self.end_loading(&names);
        if starts_with(name, "Std.") {
            self.base_trait_impls.put_all_new(&exports.trait_impls);
        }
        self.codegen_info.insert(name.to_owned(), codegen);
        self.exports.insert(name.to_owned(), exports);
    }
}

/// The exports of all modules, with those of a module that is checked.
pub open spec fn with_final_exports(
    exports: Seq<(Seq<char>, ExportsModel)>,
    m: (Seq<char>, Seq<Decl>, CheckerModel),
) -> Seq<(Seq<char>, ExportsModel)> {
    put(exports, m.0, collected_exports(CheckerModel { exports, ..m.2 }, m.1))
}

pub open spec fn with_round_of_exports(
    acc: Seq<(Seq<char>, ExportsModel)>,
    items: Seq<(Seq<char>, Seq<Decl>, CheckerModel)>,
) -> Seq<(Seq<char>, ExportsModel)>
    decreases items.len(),
{
    if items.len() == 0 {
        acc
    } else {
        with_final_exports(with_round_of_exports(acc, items.drop_last()), items.last())
    }
}

/// The exports after some rounds: modules that import each other hand on names of
/// each other, which takes as many rounds as there are modules.
pub open spec fn after_rounds(
    exports: Seq<(Seq<char>, ExportsModel)>,
    modules: Seq<(Seq<char>, Seq<Decl>, CheckerModel)>,
    n: nat,
) -> Seq<(Seq<char>, ExportsModel)>
    decreases n,
{
    if n == 0 {
        exports
    } else {
        with_round_of_exports(after_rounds(exports, modules, (n - 1) as nat), modules)
    }
}

/// A module of a cycle that is checked.
pub struct CheckedModule {
    pub name: String,
    pub program: Vec<Decl>,
    pub checker: Checker,
}

pub open spec fn checked_model(m: CheckedModule) -> (Seq<char>, Seq<Decl>, CheckerModel) {
    (m.name@, m.program@, m.checker.deep_view())
}

pub open spec fn checked_models(modules: Seq<CheckedModule>) -> Seq<
    (Seq<char>, Seq<Decl>, CheckerModel),
> {
    modules.map_values(|m: CheckedModule| checked_model(m))
}

impl Checker {
    fn round_of_exports(&mut self, modules: &Vec<CheckedModule>)
        requires
            forall|i: int|
                0 <= i < modules.len() ==> targets_fit((#[trigger] modules@[i]).program@),
        ensures
            final(self).deep_view() == (CheckerModel {
                exports: with_round_of_exports(
                    old(self).deep_view().exports,
                    checked_models(modules@),
                ),
                ..old(self).deep_view()
            }),
    {
        let ghost c0 = self.deep_view();
        let ghost all = checked_models(modules@);
        let mut i: usize = 0;
        assert(all.take(0) =~= Seq::empty());
        while i < modules.len()
            invariant
                i <= modules.len(),
                all == checked_models(modules@),
                forall|j: int|
                    0 <= j < modules.len() ==> targets_fit((#[trigger] modules@[j]).program@),
                self.deep_view() == (CheckerModel {
                    exports: with_round_of_exports(c0.exports, all.take(i as int)),
                    ..c0
                }),
            decreases modules.len() - i,
        {
            proof {
                assert(all.take(i + 1).drop_last() =~= all.take(i as int));
                assert(all.take(i + 1).last() == all[i as int]);
                assert(all[i as int] == checked_model(modules@[i as int]));
            }
            let m = &modules[i];
            let mut mc = m.checker.dup();
            mc.exports = self.exports.dup();
            let exports = ModuleExports::collect(&m.program, &mc);
            self.exports.insert(m.name.clone(), exports);
            i = i + 1;
        }
        assert(all.take(i as int) =~= all);
    }

    /// Settles the exports of modules that import each other, after all of them are
    /// checked.
    pub fn load_module_scc(&mut self, modules: &Vec<CheckedModule>)
        requires
            forall|i: int|
                0 <= i < modules.len() ==> targets_fit((#[trigger] modules@[i]).program@),
        ensures
            final(self).deep_view() == (CheckerModel {
                exports: after_rounds(
                    old(self).deep_view().exports,
                    checked_models(modules@),
                    (modules@.len() + 1) as nat,
                ),
                ..old(self).deep_view()
            }),
    {
        let ghost c0 = self.deep_view();
        let ghost all = checked_models(modules@);
        self.round_of_exports(modules);
        assert(after_rounds(c0.exports, all, 0) == c0.exports);
        let mut n: usize = 0;
        while n < modules.len()
            invariant
                n <= modules.len(),
                all == checked_models(modules@),
                forall|i: int|
                    0 <= i < modules.len() ==> targets_fit((#[trigger] modules@[i]).program@),
                self.deep_view() == (CheckerModel {
                    exports: after_rounds(c0.exports, all, (n + 1) as nat),
                    ..c0
                }),
            decreases modules.len() - n,
        {
            self.round_of_exports(modules);
            n = n + 1;
        }
    }
}

/// The environment of the checker of a standard module, with a method of a trait.
pub open spec fn with_seeded_method(
    c: CheckerModel,
    mc: CheckerModel,
    m: MethodModel,
) -> CheckerModel {
    match lookup(c.scope_map.values, m.name) {
        Some(canonical) => if canonical != m.name && !has_key(mc.env.bindings, canonical) {
            CheckerModel {
                env: EnvModel {
                    bindings: put(mc.env.bindings, canonical, m.scheme),
                    ..mc.env
                },
                ..mc
            }
        } else {
            mc
        },
        None => mc,
    }
}

pub open spec fn with_seeded_methods(
    c: CheckerModel,
    acc: CheckerModel,
    items: Seq<MethodModel>,
) -> CheckerModel
    decreases items.len(),
{
    if items.len() == 0 {
        acc
    } else {
        with_seeded_method(c, with_seeded_methods(c, acc, items.drop_last()), items.last())
    }
}

/// The checker of a standard module, with a trait unless it has it.
pub open spec fn with_seeded_trait(
    c: CheckerModel,
    mc: CheckerModel,
    t: (Seq<char>, TraitModel),
) -> CheckerModel {
    if has_key(mc.trait_state.traits, t.0) {
        mc
    } else {
        with_seeded_methods(
            c,
            CheckerModel {
                trait_state: TraitStateModel {
                    traits: put(mc.trait_state.traits, t.0, t.1),
                    ..mc.trait_state
                },
                ..mc
            },
            t.1.methods,
        )
    }
}

pub open spec fn with_seeded_traits(
    c: CheckerModel,
    acc: CheckerModel,
    items: Seq<(Seq<char>, TraitModel)>,
) -> CheckerModel
    decreases items.len(),
{
    if items.len() == 0 {
        acc
    } else {
        with_seeded_trait(c, with_seeded_traits(c, acc, items.drop_last()), items.last())
    }
}

fn seed_methods(c: &Checker, acc: &mut Checker, items: &Vec<TraitMethodInfo>)
    ensures
        final(acc).deep_view() == with_seeded_methods(
            c.deep_view(),
            old(acc).deep_view(),
            items.deep_view(),
        ),
{
    let ghost a0 = acc.deep_view();
    let ghost all = items.deep_view();
    let mut i: usize = 0;
    assert(all.take(0) =~= Seq::empty());
    while i < items.len()
        invariant
            i <= items.len(),
            all == items.deep_view(),
            acc.deep_view() == with_seeded_methods(c.deep_view(), a0, all.take(i as int)),
        decreases items.len() - i,
    {
        proof {
            assert(all.take(i + 1).drop_last() =~= all.take(i as int));
            assert(all.take(i + 1).last() == all[i as int]);
        }
        let m = &items[i];
        if let Some(canonical) = c.scope_map.resolve_value(m.name.as_str()) {
            if !text_eq(canonical.as_str(), m.name.as_str()) && acc.env.get(
                canonical.as_str(),
            ).is_none() {
                acc.env.insert(canonical.clone(), m.scheme.dup());
            }
        }
        i = i + 1;
    }
    assert(all.take(i as int) =~= all);
}

fn seed_traits(c: &Checker, acc: &mut Checker, items: &Table<String, TraitInfo>)
    ensures
        final(acc).deep_view() == with_seeded_traits(
            c.deep_view(),
            old(acc).deep_view(),
            items.order(),
        ),
{
    let ghost a0 = acc.deep_view();
    let ghost all = items.order();
    let n = items.len();
    let mut i: usize = 0;
    assert(all.take(0) =~= Seq::empty());
    while i < n
        invariant
            i <= n,
            all == items.order(),
            n == all.len(),
            acc.deep_view() == with_seeded_traits(c.deep_view(), a0, all.take(i as int)),
        decreases n - i,
    {
        proof {
            assert(all.take(i + 1).drop_last() =~= all.take(i as int));
            assert(all.take(i + 1).last() == all[i as int]);
        }
        let name = items.key(i);
        let info = items.value(i);
        if !acc.trait_state.traits.contains_key(name) {
            acc.trait_state.traits.insert(name.clone(), info.dup());
            seed_methods(c, acc, &info.methods);
        }
        i = i + 1;
    }
    assert(all.take(i as int) =~= all);
}

/// The checker of a standard module, with what is known already: traits,
/// constructors, types, the impls of the standard modules, and names.
pub open spec fn builtin_seeded(c: CheckerModel, mc: CheckerModel) -> CheckerModel {
    let m1 = with_seeded_traits(c, mc, c.trait_state.traits);
    CheckerModel {
        constructors: put_all_new(m1.constructors, c.constructors),
        adt_variants: put_all_new(m1.adt_variants, c.adt_variants),
        trait_state: TraitStateModel {
            impls: put_all_new(m1.trait_state.impls, c.base_trait_impls),
            ..m1.trait_state
        },
        scope_map: merged_scopes(m1.scope_map, c.scope_map),
        ..m1
    }
}

/// The checker of a module: what it starts from, with the modules that are loaded.
pub open spec fn module_checker(
    c: CheckerModel,
    start: CheckerModel,
    builtin: bool,
) -> CheckerModel {
    let mc = if builtin {
        builtin_seeded(c, start)
    } else {
        start
    };
    CheckerModel {
        allow_bodyless_annotations: builtin,
        next_var: c.next_var,
        exports: c.exports,
        codegen_info: c.codegen_info,
        base_trait_impls: c.base_trait_impls,
        ..mc
    }
}

impl Checker {
    /// Gives the checker of a standard module what is known already.
    pub fn seed_builtin_checker(&self, mc: &mut Checker)
        ensures
            final(mc).deep_view() == builtin_seeded(self.deep_view(), old(mc).deep_view()),
    {
        seed_traits(self, mc, &self.trait_state.traits);
        mc.constructors.put_all_new(&self.constructors);
        mc.adt_variants.put_all_new(&self.adt_variants);
        mc.trait_state.impls.put_all_new(&self.base_trait_impls);
        mc.scope_map.merge(&self.scope_map);
    }

    /// The checker of a module. It starts from the prelude, or from nothing for a
    /// standard module, and shares the modules that are loaded.
    pub fn seeded_module_checker(&self, start: Checker, is_builtin: bool) -> (r: Checker)
        ensures
            r.deep_view() == module_checker(self.deep_view(), start.deep_view(), is_builtin),
    {
        let mut mc = start;
        if is_builtin {
            self.seed_builtin_checker(&mut mc);
        }
        mc.allow_bodyless_annotations = is_builtin;
        mc.next_var = self.next_var;
        mc.exports = self.exports.dup();
        mc.codegen_info = self.codegen_info.dup();
        mc.base_trait_impls = self.base_trait_impls.dup();
        mc
    }
}

/// The documentation with that of a name under another one.
pub open spec fn with_copied_doc(
    docs: Seq<(Seq<char>, Seq<Seq<char>>)>,
    name: (Seq<char>, Seq<char>),
) -> Seq<(Seq<char>, Seq<Seq<char>>)> {
    match at_key(docs, name.1) {
        Some(doc) => put_new(docs, name.0, doc),
        None => docs,
    }
}

pub open spec fn with_copied_docs(
    acc: Seq<(Seq<char>, Seq<Seq<char>>)>,
    items: Seq<(Seq<char>, Seq<char>)>,
) -> Seq<(Seq<char>, Seq<Seq<char>>)>
    decreases items.len(),
{
    if items.len() == 0 {
        acc
    } else {
        with_copied_doc(with_copied_docs(acc, items.drop_last()), items.last())
    }
}

fn copy_docs(acc: &mut Table<String, Vec<String>>, items: &Table<String, String>)
    ensures
        final(acc).order() == with_copied_docs(old(acc).order(), items.order()),
{
    let ghost a0 = acc.order();
    let ghost all = items.order();
    let n = items.len();
    let mut i: usize = 0;
    assert(all.take(0) =~= Seq::empty());
    while i < n
        invariant
            i <= n,
            all == items.order(),
            n == all.len(),
            acc.order() == with_copied_docs(a0, all.take(i as int)),
        decreases n - i,
    {
        proof {
            assert(all.take(i + 1).drop_last() =~= all.take(i as int));
            assert(all.take(i + 1).last() == all[i as int]);
        }
        let doc = match acc.get(items.value(i)) {
            Some(doc) => Some(doc.dup()),
            None => None,
        };
        if let Some(doc) = doc {
            acc.insert_if_absent(items.key(i).clone(), doc);
        }
        i = i + 1;
    }
    assert(all.take(i as int) =~= all);
}

/// What an editor asks for, with a constructor that an import brings into scope.
pub open spec fn with_copied_ctor(lsp: LspModel, name: (Seq<char>, Seq<char>)) -> LspModel {
    LspModel {
        imported_docs: with_copied_doc(lsp.imported_docs, name),
        constructor_def_ids: match at_key(lsp.constructor_def_ids, name.1) {
            Some(id) => put_new(lsp.constructor_def_ids, name.0, id),
            None => lsp.constructor_def_ids,
        },
        ..lsp
    }
}

pub open spec fn with_copied_ctors(acc: LspModel, items: Seq<(Seq<char>, Seq<char>)>) -> LspModel
    decreases items.len(),
{
    if items.len() == 0 {
        acc
    } else {
        with_copied_ctor(with_copied_ctors(acc, items.drop_last()), items.last())
    }
}

fn copy_ctors(acc: &mut crate::checker::LspState, items: &Table<String, String>)
    ensures
        final(acc).deep_view() == with_copied_ctors(old(acc).deep_view(), items.order()),
{
    let ghost a0 = acc.deep_view();
    let ghost all = items.order();
    let n = items.len();
    let mut i: usize = 0;
    assert(all.take(0) =~= Seq::empty());
    while i < n
        invariant
            i <= n,
            all == items.order(),
            n == all.len(),
            acc.deep_view() == with_copied_ctors(a0, all.take(i as int)),
        decreases n - i,
    {
        proof {
            assert(all.take(i + 1).drop_last() =~= all.take(i as int));
            assert(all.take(i + 1).last() == all[i as int]);
        }
        let doc = match acc.imported_docs.get(items.value(i)) {
            Some(doc) => Some(doc.dup()),
            None => None,
        };
        if let Some(doc) = doc {
            acc.imported_docs.insert_if_absent(items.key(i).clone(), doc);
        }
        let id = match acc.constructor_def_ids.get(items.value(i)) {
            Some(id) => Some(*id),
            None => None,
        };
        if let Some(id) = id {
            acc.constructor_def_ids.insert_if_absent(items.key(i).clone(), id);
        }
        i = i + 1;
    }
    assert(all.take(i as int) =~= all);
}

/// What an editor asks for, with the names that an import brings into scope.
pub open spec fn with_header_scope(lsp: LspModel, s: ScopeMap) -> LspModel {
    let docs = with_copied_docs(
        with_copied_docs(
            with_copied_docs(
                with_copied_docs(
                    with_copied_docs(lsp.imported_docs, s.values.order()),
                    s.types.order(),
                ),
                s.handlers.order(),
            ),
            s.effects.order(),
        ),
        s.traits.order(),
    );
    with_copied_ctors(LspModel { imported_docs: docs, ..lsp }, s.constructors.order())
}

impl Checker {
    /// Tells an editor of the names that an import brings into scope.
    pub fn merge_header_lsp_scope(&mut self, import_scope: &ScopeMap)
        ensures
            final(self).deep_view() == (CheckerModel {
                lsp: with_header_scope(old(self).deep_view().lsp, *import_scope),
                ..old(self).deep_view()
            }),
    {
        copy_docs(&mut self.lsp.imported_docs, &import_scope.values);
        copy_docs(&mut self.lsp.imported_docs, &import_scope.types);
        copy_docs(&mut self.lsp.imported_docs, &import_scope.handlers);
        copy_docs(&mut self.lsp.imported_docs, &import_scope.effects);
        copy_docs(&mut self.lsp.imported_docs, &import_scope.traits);
        copy_ctors(&mut self.lsp, &import_scope.constructors);
    }

    /// An import of a module that is being checked together with this one: brings
    /// into scope what its header has.
    pub fn import_from_headers(
        &mut self,
        headers: &Table<String, ModuleHeader>,
        module: &str,
        prefix: &str,
        exposing: Option<&HeaderExposing>,
        span: Span,
    ) -> (r: Result<(), Diagnostic>)
        ensures
            match header_import_scope(headers.order(), module@, prefix@, exposing.deep_view()) {
                Err(message) => {
                    &&& r matches Err(d) && d@ == an_error_at(span, message)
                    &&& final(self).deep_view() == old(self).deep_view()
                },
                Ok(scope) => {
                    &&& r is Ok
                    &&& exists|s: ScopeMap|
                        #[trigger] s.deep_view() == scope && final(self).deep_view() == (
                        CheckerModel {
                            lsp: with_header_scope(old(self).deep_view().lsp, s),
                            scope_map: merged_scopes(old(self).deep_view().scope_map, scope),
                            ..old(self).deep_view()
                        })
                },
            },
    {
        let scope = match resolve_header_import(headers, module, prefix, exposing) {
            Ok(scope) => scope,
            Err(message) => {
                return Err(Diagnostic::error_at(span, message));
            },
        };
        let ghost s = scope;
        self.merge_header_lsp_scope(&scope);
        self.scope_map.merge(&scope);
        assert(s.deep_view() == scope.deep_view());
        Ok(())
    }

    /// The prefix of an import: its alias, or else the last segment of the module.
    pub fn import_prefix(module: &Vec<String>, alias: Option<&str>) -> (r: String)
        requires
            module.len() > 0,
        ensures
            r@ == match alias {
                Some(alias) => alias@,
                None => module.deep_view().last(),
            },
    {
        match alias {
            Some(alias) => alias.to_owned(),
            None => {
                let last: usize = module.len() - 1;
                assert(module.deep_view().last() == module@[last as int]@);
                module[last].clone()
            },
        }
    }

    /// An import of a module that is loaded. `(..)` exposes all that the module
    /// exports.
    pub fn typecheck_import(
        &mut self,
        exports: &ModuleExports,
        module: &Vec<String>,
        alias: Option<&str>,
        exposing: Option<&Exposing>,
        span: Span,
    ) -> (r: Result<(), Diagnostic>)
        requires
            module.len() > 0,
            fields_fit(exports.deep_view()),
        ensures
            exists|items: Option<Seq<ExposedItem>>| #[trigger]
                exposes(exports.deep_view(), exposing, items) && imported(
                    old(self).deep_view(),
                    exports.deep_view(),
                    joined(module.deep_view(), "."@),
                    match alias {
                        Some(alias) => alias@,
                        None => module.deep_view().last(),
                    },
                    items,
                    span,
                    final(self).deep_view(),
                    outcome(r),
                ),
    {
        let name = join_text(module, ".");
        let prefix = Checker::import_prefix(module, alias);
        match exposing {
            None => {
                let r = self.inject_exports(exports, name.as_str(), prefix.as_str(), None, span);
                assert(exposes(exports.deep_view(), exposing, None));
                r
            },
            Some(Exposing::Items(items)) => {
                let r = self.inject_exports(
                    exports,
                    name.as_str(),
                    prefix.as_str(),
                    Some(items),
                    span,
                );
                assert(exposes(exports.deep_view(), exposing, Some(items@)));
                r
            },
            Some(Exposing::All { public, .. }) => {
                let items = synthesize_all_exposed(exports, *public);
                let r = self.inject_exports(
                    exports,
                    name.as_str(),
                    prefix.as_str(),
                    Some(&items),
                    span,
                );
                assert(exposes(exports.deep_view(), exposing, Some(items@)));
                r
            },
        }
    }
}

/// What an import exposes, if anything: the names that it lists, or all names that
/// the module exports.
pub open spec fn exposes(
    x: ExportsModel,
    exposing: Option<&Exposing>,
    items: Option<Seq<ExposedItem>>,
) -> bool {
    match exposing {
        None => items is None,
        Some(Exposing::Items(listed)) => items == Some(listed@),
        Some(Exposing::All { public, .. }) => {
            &&& items matches Some(all)
            &&& all.map_values(|i: ExposedItem| i.name@)
                == crate::import_scope::all_exposed_names(x)
            &&& forall|i: int|
                #![trigger all[i]]
                0 <= i < all.len() ==> all[i].alias is None && all[i].public == public
        },
    }
}

/// What comes of an import.
pub open spec fn imported(
    c: CheckerModel,
    x: ExportsModel,
    module: Seq<char>,
    prefix: Seq<char>,
    items: Option<Seq<ExposedItem>>,
    span: Span,
    after: CheckerModel,
    r: Result<(), Diag>,
) -> bool {
    let c1 = with_canonical_exports(
        c,
        x,
        module,
        Some(prefix),
        match items {
            Some(items) => items,
            None => Seq::empty(),
        },
    );
    match import_merged(c1, x, module, prefix, items, span) {
        Ok(merged) => r is Ok && after == merged,
        Err(d) => r == Err::<(), Diag>(d) && after == c1,
    }
}

/// Whether a private module may be imported depends on the package of the importer
/// alone, not on whether the module is loaded already.
pub proof fn private_modules_stay_private(
    c: CheckerModel,
    p: PathsModel,
    name: Seq<char>,
    within_cycle: bool,
    together: Option<Seq<Seq<char>>>,
    span: Span,
)
    requires
        module_file(p, c.current_module, name) is None,
    ensures
        load_step(c, p, name, false, within_cycle, together, span) is Err,
{
}

/// The variables of a module that was checked are never handed out again.
pub proof fn loaded_variables_are_kept_apart(
    c: CheckerModel,
    name: Seq<char>,
    mc: CheckerModel,
    x: ExportsModel,
    g: CodegenModel,
)
    ensures
        with_module(c, name, mc, x, g).next_var >= c.next_var,
        with_module(c, name, mc, x, g).next_var >= mc.next_var,
{
}

/// A module is loaded once: where it could be loaded, loading it again gives back what
/// it exports.
pub proof fn loading_is_done_once(
    c: CheckerModel,
    p: PathsModel,
    name: Seq<char>,
    builtin: bool,
    within_cycle: bool,
    together: Option<Seq<Seq<char>>>,
    span: Span,
    mc: CheckerModel,
    x: ExportsModel,
    g: CodegenModel,
)
    requires
        crate::table::distinct_keys(c.exports),
        load_step(c, p, name, builtin, within_cycle, together, span) is Ok,
    ensures
        load_step(
            with_module(c, name, mc, x, g),
            p,
            name,
            builtin,
            within_cycle,
            together,
            span,
        ) == Ok::<LoadStepModel, Diag>(LoadStepModel::Cached(x)),
{
    let c1 = with_caches(c, mc);
    crate::surface_laws::put_all_new_answers(c.exports, c.exports, mc.exports);
    crate::table::put_then_get(c1.exports, name, x, name);
    none_left(c.loading, name);
}

proof fn none_left(names: Seq<Seq<char>>, name: Seq<char>)
    ensures
        !names_outside(names, seq![name]).contains(name),
    decreases names.len(),
{
    if names.len() > 0 {
        none_left(names.drop_last(), name);
        assert(seq![name][0] == name);
        crate::seqs::push_contains(
            names_outside(names.drop_last(), seq![name]),
            names.last(),
            name,
        );
    }
}

/// A module that was checked is known by what it exports and by what code generation
/// needs to know of it, and it is not being loaded any more. Modules that were known stay
/// as they were, and others that its checker loaded are known too.
pub proof fn checked_modules_are_known(
    c: CheckerModel,
    name: Seq<char>,
    mc: CheckerModel,
    x: ExportsModel,
    g: CodegenModel,
    other: Seq<char>,
)
    requires
        crate::table::distinct_keys(c.exports),
        crate::table::distinct_keys(c.codegen_info),
        other != name,
    ensures
        ({
            let after = with_module(c, name, mc, x, g);
            &&& at_key(after.exports, name) == Some(x)
            &&& at_key(after.codegen_info, name) == Some(g)
            &&& !after.loading.contains(name)
            &&& after.loading.contains(other) <==> c.loading.contains(other)
            &&& has_key(c.exports, other) ==> at_key(after.exports, other) == at_key(
                c.exports,
                other,
            )
            &&& has_key(mc.exports, other) ==> has_key(after.exports, other)
            &&& has_key(c.codegen_info, other) ==> at_key(after.codegen_info, other) == at_key(
                c.codegen_info,
                other,
            )
            &&& has_key(mc.codegen_info, other) ==> has_key(after.codegen_info, other)
            &&& after.env == c.env
            &&& after.scope_map == c.scope_map
            &&& after.trait_state == c.trait_state
        }),
{
    let c1 = with_caches(c, mc);
    crate::surface_laws::put_all_new_answers(c.exports, c.exports, mc.exports);
    crate::surface_laws::put_all_new_answers(c.codegen_info, c.codegen_info, mc.codegen_info);
    all_new_are_there(c.exports, mc.exports, other);
    all_new_are_there(c.codegen_info, mc.codegen_info, other);
    put_then_get(c1.exports, name, x, other);
    put_then_get(c1.codegen_info, name, g, other);
    key_is_put(c1.exports, name, x, other);
    key_is_put(c1.codegen_info, name, g, other);
    none_left(c.loading, name);
    others_are_left(c.loading, name, other);
}

/// The impls of a standard module are there for the standard modules that are loaded
/// later; those of another module are not.
pub proof fn standard_impls_are_there(
    c: CheckerModel,
    name: Seq<char>,
    mc: CheckerModel,
    x: ExportsModel,
    g: CodegenModel,
    key: (Seq<char>, Seq<Seq<char>>, Seq<char>),
)
    ensures
        has_key(with_module(c, name, mc, x, g).base_trait_impls, key) <==> has_key(
            c.base_trait_impls,
            key,
        ) || (begins_with(name, "Std."@) && has_key(x.trait_impls, key)),
{
    all_new_are_there(c.base_trait_impls, x.trait_impls, key);
}

proof fn all_new_are_there<K, V>(a: Seq<(K, V)>, more: Seq<(K, V)>, k: K)
    ensures
        has_key(put_all_new(a, more), k) <==> has_key(a, k) || has_key(more, k),
    decreases more.len(),
{
    if more.len() > 0 {
        let init = more.drop_last();
        let before = put_all_new(a, init);
        all_new_are_there(a, init, k);
        assert(more[more.len() - 1] == more.last());
        assert(forall|i: int| 0 <= i < init.len() ==> #[trigger] init[i] == more[i]);
        assert(forall|i: int| 0 <= i < init.len() ==> #[trigger] more[i] == init[i]);
        let after = before.push((more.last().0, more.last().1));
        assert(after[before.len() as int].0 == more.last().0);
        assert(forall|i: int| 0 <= i < before.len() ==> #[trigger] before[i] == after[i]);
        assert(forall|i: int| 0 <= i < before.len() ==> #[trigger] after[i] == before[i]);
    }
}

proof fn others_are_left(names: Seq<Seq<char>>, name: Seq<char>, other: Seq<char>)
    requires
        other != name,
    ensures
        names_outside(names, seq![name]).contains(other) <==> names.contains(other),
    decreases names.len(),
{
    if names.len() > 0 {
        others_are_left(names.drop_last(), name, other);
        assert(names =~= names.drop_last().push(names.last()));
        assert(seq![name][0] == name);
        crate::seqs::push_contains(names.drop_last(), names.last(), other);
        crate::seqs::push_contains(
            names_outside(names.drop_last(), seq![name]),
            names.last(),
            other,
        );
    }
}

} // verus!
