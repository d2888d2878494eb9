//! Loading modules that import each other.
//!
//! The modules are read first, so that the headers of all of them are there; then each
//! is checked against those headers; then their exports are settled together. A run
//! says what is to be done next, and the `cycle_` functions take what came of it.

use vstd::prelude::*;
use crate::ast::Decl;
use crate::checker::{Checker, CheckerModel};
use crate::codegen_info::{CodegenModel, ModuleCodegenInfo};
use crate::diagnostics::{an_error_at, Diag, Diagnostic};
use crate::exports::{add_names, targets_fit};
use crate::header::header_of;
use crate::header_decls::{HeaderModel, ModuleHeader};
use crate::impls::names_outside;
use crate::infos::ExportsModel;
use crate::loading::{
    after_rounds, checked_model, checked_models, fault_text, load_fault, with_caches,
    CheckedModule, LoadFault,
};
use crate::scope::lookup;
use crate::seqs::add_new;
use crate::table::{at_key, distinct_keys, has_key, put, put_then_get, Table};
use crate::text::concat3;
use crate::token::Span;

verus! {

/// What is to be done next with the modules of a cycle.
#[derive(Debug, Clone, Copy, PartialEq, Eq, Structural)]
pub enum CycleStage {
    /// The module at a place is to be read.
    Read(usize),
    /// The module at a place is to be checked.
    Check(usize),
    /// What code generation needs to know of a checked module is to be found.
    Codegen(usize),
    Done,
    Failed,
}

/// How far the loading of modules that import each other has come.
pub struct CycleRun {
    pub modules: Vec<String>,
    /// Where the import stands that led to them.
    pub span: Span,
    pub stage: CycleStage,
    /// The headers of the modules that are read.
    pub headers: Table<String, ModuleHeader>,
    /// The modules that are checked.
    pub checked: Vec<CheckedModule>,
    /// Why the run failed.
    pub error: Option<Diagnostic>,
}

#[verifier::ext_equal]
pub struct CycleModel {
    pub modules: Seq<Seq<char>>,
    pub span: Span,
    pub stage: CycleStage,
    pub headers: Seq<(Seq<char>, HeaderModel)>,
    pub checked: Seq<(Seq<char>, Seq<Decl>, CheckerModel)>,
    pub error: Option<Diag>,
}

impl DeepView for CycleRun {
    type V = CycleModel;

    open spec fn deep_view(&self) -> CycleModel {
        CycleModel {
            modules: self.modules.deep_view(),
            span: self.span,
            stage: self.stage,
            headers: self.headers.order(),
            checked: checked_models(self.checked@),
            error: self.error.deep_view(),
        }
    }
}

pub open spec fn cycle_failed(run: CycleModel, d: Diag) -> CycleModel {
    CycleModel { stage: CycleStage::Failed, error: Some(d), ..run }
}

/// The place of the first module from a place on that is not loaded yet.
pub open spec fn unloaded_from(
    exports: Seq<(Seq<char>, ExportsModel)>,
    modules: Seq<Seq<char>>,
    i: nat,
) -> nat
    decreases modules.len() - i,
{
    if i < modules.len() && has_key(exports, modules[i as int]) {
        unloaded_from(exports, modules, i + 1)
    } else {
        i
    }
}

/// The state and the run once everything is known of the first `k` modules that are
/// checked. After the last one, no module of the cycle is being loaded.
pub open spec fn codegen_from(c: CheckerModel, run: CycleModel, k: nat) -> (
    CheckerModel,
    CycleModel,
) {
    if k < run.checked.len() {
        (c, CycleModel { stage: CycleStage::Codegen(k as usize), ..run })
    } else {
        (
            CheckerModel { loading: names_outside(c.loading, run.modules), ..c },
            CycleModel { stage: CycleStage::Done, ..run },
        )
    }
}

/// The state and the run at the next module that is to be checked. After the last one
/// the exports are settled.
pub open spec fn check_from(
    c: CheckerModel,
    run: CycleModel,
    i: nat,
) -> (CheckerModel, CycleModel) {
    let at = unloaded_from(c.exports, run.modules, i);
    if at < run.modules.len() {
        (c, CycleModel { stage: CycleStage::Check(at as usize), ..run })
    } else {
        codegen_from(
            CheckerModel {
                exports: after_rounds(c.exports, run.checked, (run.checked.len() + 1) as nat),
                ..c
            },
            run,
            0,
        )
    }
}

/// The state and the run at the next module that is to be read. After the last one all
/// of them are being loaded.
pub open spec fn read_from(
    c: CheckerModel,
    map: Map<Seq<char>, Seq<char>>,
    run: CycleModel,
    i: nat,
) -> (CheckerModel, CycleModel) {
    let at = unloaded_from(c.exports, run.modules, i);
    if at < run.modules.len() {
        let name = run.modules[at as int];
        match lookup(map, name) {
            Some(path) => (c, CycleModel { stage: CycleStage::Read(at as usize), ..run }),
            None => (
                c,
                cycle_failed(
                    run,
                    an_error_at(
                        run.span,
                        "unknown module '"@ + name + "' in import cycle"@,
                    ),
                ),
            ),
        }
    } else {
        check_from(CheckerModel { loading: add_new(c.loading, run.modules), ..c }, run, 0)
    }
}

/// The loading of modules that import each other at its beginning.
pub open spec fn cycle_begun(
    c: CheckerModel,
    map: Option<Map<Seq<char>, Seq<char>>>,
    modules: Seq<Seq<char>>,
    span: Span,
) -> (CheckerModel, CycleModel) {
    let run = CycleModel {
        modules,
        span,
        stage: CycleStage::Done,
        headers: Seq::empty(),
        checked: Seq::empty(),
        error: None,
    };
    match map {
        Some(map) => read_from(c, map, run, 0),
        None => (
            c,
            cycle_failed(
                run,
                an_error_at(span, "internal error: SCC loading requires a module map"@),
            ),
        ),
    }
}

/// The state and the run after a module is read.
pub open spec fn module_parsed(
    c: CheckerModel,
    map: Map<Seq<char>, Seq<char>>,
    run: CycleModel,
    program: Seq<Decl>,
) -> (CheckerModel, CycleModel) {
    match run.stage {
        CycleStage::Read(i) => read_from(
            c,
            map,
            CycleModel {
                headers: put(run.headers, run.modules[i as int], header_of(program)),
                ..run
            },
            (i + 1) as nat,
        ),
        _ => (c, run),
    }
}

/// The state and the run after a module could not be read or checked.
pub open spec fn module_faulty(
    c: CheckerModel,
    run: CycleModel,
    fault: LoadFault,
    message: Seq<char>,
) -> (CheckerModel, CycleModel) {
    match run.stage {
        CycleStage::Read(i) => (
            c,
            cycle_failed(
                run,
                an_error_at(
                    run.span,
                    fault_text(fault) + run.modules[i as int] + "': "@ + message,
                ),
            ),
        ),
        CycleStage::Check(i) => (
            CheckerModel { loading: names_outside(c.loading, run.modules), ..c },
            cycle_failed(
                run,
                an_error_at(
                    run.span,
                    fault_text(fault) + run.modules[i as int] + "': "@ + message,
                ),
            ),
        ),
        _ => (c, run),
    }
}

/// The state and the run after a module is checked.
pub open spec fn module_checked(
    c: CheckerModel,
    run: CycleModel,
    program: Seq<Decl>,
    mc: CheckerModel,
) -> (CheckerModel, CycleModel) {
    match run.stage {
        CycleStage::Check(i) => check_from(
            with_caches(c, mc),
            CycleModel {
                checked: run.checked.push((run.modules[i as int], program, mc)),
                ..run
            },
            (i + 1) as nat,
        ),
        _ => (c, run),
    }
}

/// The state and the run after it is known what code generation needs of a module.
pub open spec fn module_described(c: CheckerModel, run: CycleModel, info: CodegenModel) -> (
    CheckerModel,
    CycleModel,
) {
    match run.stage {
        CycleStage::Codegen(k) => codegen_from(
            CheckerModel {
                codegen_info: put(c.codegen_info, run.checked[k as int].0, info),
                ..c
            },
            run,
            (k + 1) as nat,
        ),
        _ => (c, run),
    }
}

/// Whether the place of a run is one of its modules.
pub open spec fn cycle_fits(run: CycleRun) -> bool {
    &&& run.stage is Read ==> run.stage->Read_0 < run.modules.len()
    &&& run.stage is Check ==> run.stage->Check_0 < run.modules.len()
    &&& run.stage is Codegen ==> run.stage->Codegen_0 < run.checked.len()
    &&& forall|i: int|
        0 <= i < run.checked.len() ==> targets_fit((#[trigger] run.checked@[i]).program@)
}

impl Checker {
    fn find_unloaded(&self, modules: &Vec<String>, i: usize) -> (r: usize)
        requires
            i <= modules.len(),
        ensures
            r == unloaded_from(self.deep_view().exports, modules.deep_view(), i as nat),
            i <= r <= modules.len(),
    {
        let ghost all = modules.deep_view();
        let ghost exports = self.deep_view().exports;
        let mut at: usize = i;
        assert(all.len() == modules.len());
        while at < modules.len() && self.exports.contains_key(&modules[at])
            invariant
                i <= at <= modules.len(),
                all == modules.deep_view(),
                exports == self.deep_view().exports,
                unloaded_from(exports, all, i as nat) == unloaded_from(exports, all, at as nat),
            decreases modules.len() - at,
        {
            assert(all[at as int] == modules@[at as int]@);
            at = at + 1;
        }
        proof {
            if at < modules.len() {
                assert(all[at as int] == modules@[at as int]@);
            }
        }
        at
    }

    fn codegen_next(&mut self, run: &mut CycleRun, k: usize)
        requires
            forall|i: int|
                0 <= i < old(run).checked.len() ==> targets_fit(
                    (#[trigger] old(run).checked@[i]).program@,
                ),
        ensures
            (final(self).deep_view(), final(run).deep_view()) == codegen_from(
                old(self).deep_view(),
                old(run).deep_view(),
                k as nat,
            ),
            cycle_fits(*final(run)),
    {
        if k < run.checked.len() {
            run.stage = CycleStage::Codegen(k);
        } else {
            self.end_loading(&run.modules);
            run.stage = CycleStage::Done;
        }
    }

    fn check_next(&mut self, run: &mut CycleRun, i: usize)
        requires
            i <= old(run).modules.len(),
            forall|j: int|
                0 <= j < old(run).checked.len() ==> targets_fit(
                    (#[trigger] old(run).checked@[j]).program@,
                ),
        ensures
            (final(self).deep_view(), final(run).deep_view()) == check_from(
                old(self).deep_view(),
                old(run).deep_view(),
                i as nat,
            ),
            cycle_fits(*final(run)),
    {
        assert(run.modules.deep_view().len() == run.modules.len());
        let at = self.find_unloaded(&run.modules, i);
        if at < run.modules.len() {
            run.stage = CycleStage::Check(at);
        } else {
            self.load_module_scc(&run.checked);
            self.codegen_next(run, 0);
        }
    }

    fn read_next(&mut self, map: &Table<String, String>, run: &mut CycleRun, i: usize)
        requires
            i <= old(run).modules.len(),
            forall|j: int|
                0 <= j < old(run).checked.len() ==> targets_fit(
                    (#[trigger] old(run).checked@[j]).program@,
                ),
        ensures
            (final(self).deep_view(), final(run).deep_view()) == read_from(
                old(self).deep_view(),
                map.deep_view(),
                old(run).deep_view(),
                i as nat,
            ),
            cycle_fits(*final(run)),
    {
        assert(run.modules.deep_view().len() == run.modules.len());
        let at = self.find_unloaded(&run.modules, i);
        if at < run.modules.len() {
            if map.contains_key(&run.modules[at]) {
                run.stage = CycleStage::Read(at);
            } else {
                let message = concat3(
                    "unknown module '",
                    run.modules[at].as_str(),
                    "' in import cycle",
                );
                run.error = Some(Diagnostic::error_at(run.span, message));
                run.stage = CycleStage::Failed;
            }
        } else {
            add_names(&mut self.loading, &run.modules);
            self.check_next(run, 0);
        }
    }

    /// The loading of modules that import each other at its beginning. `map` says where
    /// the modules of the project are.
    pub fn begin_cycle(
        &mut self,
        map: Option<&Table<String, String>>,
        modules: Vec<String>,
        span: Span,
    ) -> (r: CycleRun)
        ensures
            (final(self).deep_view(), r.deep_view()) == cycle_begun(
                old(self).deep_view(),
                match map {
                    Some(map) => Some(map.deep_view()),
                    None => None,
                },
                modules.deep_view(),
                span,
            ),
            cycle_fits(r),
    {
        let checked: Vec<CheckedModule> = Vec::new();
        assert(checked_models(checked@) =~= Seq::empty());
        let mut run = CycleRun {
            modules,
            span,
            stage: CycleStage::Done,
            headers: Table::new(),
            checked,
            error: None,
        };
        match map {
            Some(map) => {
                self.read_next(map, &mut run, 0);
            },
            None => {
                run.error = Some(
                    Diagnostic::error_at(
                        span,
                        "internal error: SCC loading requires a module map".to_owned(),
                    ),
                );
                run.stage = CycleStage::Failed;
            },
        }
        run
    }

    /// Takes a module that is read.
    pub fn cycle_parsed(
        &mut self,
        map: &Table<String, String>,
        run: &mut CycleRun,
        program: &Vec<Decl>,
    )
        requires
            cycle_fits(*old(run)),
        ensures
            (final(self).deep_view(), final(run).deep_view()) == module_parsed(
                old(self).deep_view(),
                map.deep_view(),
                old(run).deep_view(),
                program@,
            ),
            cycle_fits(*final(run)),
    {
        if let CycleStage::Read(i) = run.stage {
            assert(run.modules.deep_view()[i as int] == run.modules@[i as int]@);
            run.headers.insert(run.modules[i].clone(), ModuleHeader::from_program(program));
            self.read_next(map, run, i + 1);
        }
    }

    /// Takes why a module could not be read or checked.
    pub fn cycle_faulty(&mut self, run: &mut CycleRun, fault: LoadFault, message: &str)
        requires
            cycle_fits(*old(run)),
        ensures
            (final(self).deep_view(), final(run).deep_view()) == module_faulty(
                old(self).deep_view(),
                old(run).deep_view(),
                fault,
                message@,
            ),
            cycle_fits(*final(run)),
    {
        match run.stage {
            CycleStage::Read(i) => {
                assert(run.modules.deep_view()[i as int] == run.modules@[i as int]@);
                let d = load_fault(fault, run.modules[i].as_str(), message, run.span);
                run.error = Some(d);
                run.stage = CycleStage::Failed;
            },
            CycleStage::Check(i) => {
                assert(run.modules.deep_view()[i as int] == run.modules@[i as int]@);
                let d = load_fault(fault, run.modules[i].as_str(), message, run.span);
                self.end_loading(&run.modules);
                run.error = Some(d);
                run.stage = CycleStage::Failed;
            },
            _ => {},
        }
    }

    /// Takes a module that is checked, with its checker.
    pub fn cycle_checked(&mut self, run: &mut CycleRun, program: Vec<Decl>, checker: Checker)
        requires
            cycle_fits(*old(run)),
            targets_fit(program@),
        ensures
            (final(self).deep_view(), final(run).deep_view()) == module_checked(
                old(self).deep_view(),
                old(run).deep_view(),
                program@,
                checker.deep_view(),
            ),
            cycle_fits(*final(run)),
    {
        if let CycleStage::Check(i) = run.stage {
            assert(run.modules.deep_view()[i as int] == run.modules@[i as int]@);
            self.take_caches(&checker);
            let ghost before = run.checked@;
            let m = CheckedModule { name: run.modules[i].clone(), program, checker };
            run.checked.push(m);
            assert(checked_models(run.checked@) =~= checked_models(before).push(
                checked_model(m),
            ));
            self.check_next(run, i + 1);
        }
    }

    /// Takes what code generation needs to know of a checked module.
    pub fn cycle_described(&mut self, run: &mut CycleRun, info: ModuleCodegenInfo)
        requires
            cycle_fits(*old(run)),
        ensures
            (final(self).deep_view(), final(run).deep_view()) == module_described(
                old(self).deep_view(),
                old(run).deep_view(),
                info.deep_view(),
            ),
            cycle_fits(*final(run)),
    {
        if let CycleStage::Codegen(k) = run.stage {
            assert(checked_models(run.checked@)[k as int] == checked_model(
                run.checked@[k as int],
            ));
            self.codegen_info.insert(run.checked[k].name.clone(), info);
            self.codegen_next(run, k + 1);
        }
    }
}

proof fn nothing_left_inside(names: Seq<Seq<char>>, allowed: Seq<Seq<char>>, name: Seq<char>)
    requires
        allowed.contains(name),
    ensures
        !names_outside(names, allowed).contains(name),
    decreases names.len(),
{
    if names.len() > 0 {
        nothing_left_inside(names.drop_last(), allowed, name);
        let before = names_outside(names.drop_last(), allowed);
        let after = names_outside(names, allowed);
        if after.contains(name) {
            let i = choose|i: int| 0 <= i < after.len() && after[i] == name;
            if i < before.len() {
                assert(before[i] == name);
            }
        }
    }
}

/// When the last module is dealt with, or one of them does not check, none of them is
/// being loaded any more.
pub proof fn cycles_leave_nothing_loading(
    c: CheckerModel,
    run: CycleModel,
    info: CodegenModel,
    fault: LoadFault,
    message: Seq<char>,
    name: Seq<char>,
)
    requires
        run.modules.contains(name),
    ensures
        run.stage is Codegen && module_described(c, run, info).1.stage is Done
            ==> !module_described(c, run, info).0.loading.contains(name),
        run.stage is Check ==> !module_faulty(c, run, fault, message).0.loading.contains(name),
{
    nothing_left_inside(c.loading, run.modules, name);
}

proof fn unloaded_is_the_first(
    exports: Seq<(Seq<char>, ExportsModel)>,
    modules: Seq<Seq<char>>,
    i: nat,
)
    requires
        i <= modules.len(),
    ensures
        ({
            let at = unloaded_from(exports, modules, i);
            &&& i <= at <= modules.len()
            &&& forall|j: int| i <= j < at ==> has_key(exports, #[trigger] modules[j])
            &&& at < modules.len() ==> !has_key(exports, modules[at as int])
        }),
    decreases modules.len() - i,
{
    if i < modules.len() && has_key(exports, modules[i as int]) {
        unloaded_is_the_first(exports, modules, i + 1);
    }
}

/// Each module of a cycle is read, unless it is loaded already: from a place on, the next
/// one that is read is the first that is not loaded. Once all are read, all of them are
/// being loaded while one is checked.
pub proof fn each_module_is_read(
    c: CheckerModel,
    map: Map<Seq<char>, Seq<char>>,
    run: CycleModel,
    i: nat,
)
    requires
        i <= run.modules.len() <= usize::MAX,
    ensures
        ({
            let after = read_from(c, map, run, i);
            let modules = run.modules;
            &&& after.1.modules == modules
            &&& after.1.headers == run.headers
            &&& match after.1.stage {
                CycleStage::Read(at) => {
                    &&& after.0 == c
                    &&& i <= at < modules.len()
                    &&& !has_key(c.exports, modules[at as int])
                    &&& lookup(map, modules[at as int]) is Some
                    &&& forall|j: int| i <= j < at ==> has_key(c.exports, #[trigger] modules[j])
                },
                CycleStage::Failed => after.0 == c && exists|j: int|
                    i <= j < modules.len() && !has_key(c.exports, #[trigger] modules[j]) && lookup(
                        map,
                        modules[j],
                    ) is None,
                _ => forall|j: int|
                    i <= j < modules.len() ==> has_key(c.exports, #[trigger] modules[j]),
            }
            &&& after.1.stage is Check ==> forall|j: int|
                0 <= j < modules.len() ==> after.0.loading.contains(#[trigger] modules[j])
        }),
{
    let modules = run.modules;
    let at = unloaded_from(c.exports, modules, i);
    unloaded_is_the_first(c.exports, modules, i);
    if at < modules.len() {
        assert(!has_key(c.exports, modules[at as int]));
    } else {
        let c1 = CheckerModel { loading: add_new(c.loading, modules), ..c };
        unloaded_is_the_first(c1.exports, modules, 0);
        assert forall|j: int| 0 <= j < modules.len() implies add_new(c.loading, modules).contains(
            #[trigger] modules[j],
        ) by {
            crate::seqs::add_new_contains(c.loading, modules, modules[j]);
        }
    }
}

/// Each module of a cycle is checked, unless it is loaded already: from a place on, the
/// next one that is checked is the first that is not loaded.
pub proof fn each_module_is_checked(c: CheckerModel, run: CycleModel, i: nat)
    requires
        i <= run.modules.len() <= usize::MAX,
    ensures
        ({
            let after = check_from(c, run, i);
            let modules = run.modules;
            &&& after.1.modules == modules
            &&& after.1.checked == run.checked
            &&& match after.1.stage {
                CycleStage::Check(at) => {
                    &&& after.0 == c
                    &&& i <= at < modules.len()
                    &&& !has_key(c.exports, modules[at as int])
                    &&& forall|j: int| i <= j < at ==> has_key(c.exports, #[trigger] modules[j])
                },
                _ => {
                    &&& forall|j: int|
                        i <= j < modules.len() ==> has_key(c.exports, #[trigger] modules[j])
                    &&& run.checked.len() == 0 <==> after.1.stage is Done
                },
            }
        }),
{
    unloaded_is_the_first(c.exports, run.modules, i);
}

/// The header of a module that is read is that of its program. What code generation needs
/// of a checked module is kept under the name of the module.
pub proof fn modules_keep_what_is_found(
    c: CheckerModel,
    map: Map<Seq<char>, Seq<char>>,
    run: CycleModel,
    program: Seq<Decl>,
    mc: CheckerModel,
    info: CodegenModel,
)
    requires
        run.modules.len() <= usize::MAX,
        distinct_keys(run.headers),
        distinct_keys(c.codegen_info),
    ensures
        run.stage matches CycleStage::Read(i) ==> at_key(
            module_parsed(c, map, run, program).1.headers,
            run.modules[i as int],
        ) == Some(header_of(program)),
        run.stage matches CycleStage::Check(i) ==> {
            let checked = module_checked(c, run, program, mc).1.checked;
            &&& checked.len() == run.checked.len() + 1
            &&& checked.last() == (run.modules[i as int], program, mc)
            &&& checked.drop_last() == run.checked
        },
        run.stage matches CycleStage::Codegen(k) ==> {
            let after = module_described(c, run, info);
            &&& at_key(after.0.codegen_info, run.checked[k as int].0) == Some(info)
            &&& after.1.stage is Done <==> k + 1 >= run.checked.len()
        },
{
    match run.stage {
        CycleStage::Read(i) => {
            put_then_get(
                run.headers,
                run.modules[i as int],
                header_of(program),
                run.modules[i as int],
            );
        },
        CycleStage::Check(i) => {
            let checked = run.checked.push((run.modules[i as int], program, mc));
            assert(checked.drop_last() =~= run.checked);
        },
        CycleStage::Codegen(k) => {
            let name = run.checked[k as int].0;
            put_then_get(c.codegen_info, name, info, name);
        },
        _ => {},
    }
}

} // verus!
