//! Finding the modules of a project: the names that source files declare, and the
//! modules that come with the language.

use vstd::prelude::*;
use crate::table::{at_key, put, Table};
use crate::text::{
    begins_with, concat3, concat4, concat5, join_text, joined, starts_with, text_eq,
};
use crate::token::Token;
use crate::values::{contains_name, push_value, reached, Dup};

verus! {

/// Which package a module is of, and whether other packages may import it.
#[derive(Debug)]
pub struct ModuleVisibility {
    pub package: String,
    pub exposed: bool,
}

#[verifier::ext_equal]
pub struct VisibilityModel {
    pub package: Seq<char>,
    pub exposed: bool,
}

impl DeepView for ModuleVisibility {
    type V = VisibilityModel;

    open spec fn deep_view(&self) -> VisibilityModel {
        VisibilityModel {
            package: self.package.deep_view(),
            exposed: self.exposed.deep_view(),
        }
    }
}

impl Dup for ModuleVisibility {
    fn dup(&self) -> (r: Self) {
        ModuleVisibility {
            package: self.package.dup(),
            exposed: self.exposed.dup(),
        }
    }
}

/// The segments of a dotted name, from the dot at `at` on.
pub open spec fn more_segments(tokens: Seq<Token>, at: int) -> Seq<Seq<char>>
    decreases tokens.len() - at,
{
    if 0 <= at && at + 1 < tokens.len() && tokens[at] is Dot {
        match tokens[at + 1] {
            Token::UpperIdent(name) => seq![name@] + more_segments(tokens, at + 2),
            _ => Seq::empty(),
        }
    } else {
        Seq::empty()
    }
}

/// The name of the first module declaration from `at` on. A `module` without a name
/// is passed over with what follows it.
pub open spec fn module_declared(tokens: Seq<Token>, at: int) -> Option<Seq<char>>
    decreases tokens.len() - at,
{
    if at < 0 || at >= tokens.len() {
        None
    } else if tokens[at] is Module {
        if at + 1 < tokens.len() {
            match tokens[at + 1] {
                Token::UpperIdent(name) => Some(
                    joined(seq![name@] + more_segments(tokens, at + 2), "."@),
                ),
                _ => module_declared(tokens, at + 2),
            }
        } else {
            None
        }
    } else {
        module_declared(tokens, at + 1)
    }
}

fn push_segments(tokens: &Vec<Token>, at: usize, parts: &mut Vec<String>)
    requires
        at <= tokens.len(),
    ensures
        final(parts).deep_view() == old(parts).deep_view() + more_segments(tokens@, at as int),
{
    let ghost parts0 = parts.deep_view();
    let ghost all = more_segments(tokens@, at as int);
    let mut i: usize = at;
    assert(all =~= Seq::<Seq<char>>::empty() + more_segments(tokens@, i as int));
    assert(parts0 + all =~= parts.deep_view() + more_segments(tokens@, i as int));
    while i < tokens.len() && tokens.len() - i > 1
        invariant
            at <= i <= tokens.len(),
            parts0 == old(parts).deep_view(),
            all == more_segments(tokens@, at as int),
            parts0 + all == parts.deep_view() + more_segments(tokens@, i as int),
        decreases tokens.len() - i,
    {
        let mut next: Option<String> = None;
        if let Token::Dot = &tokens[i] {
            if let Token::UpperIdent(name) = &tokens[i + 1] {
                next = Some(name.clone());
            }
        }
        match next {
            Some(name) => {
                let ghost before = parts.deep_view();
                let ghost n = name@;
                push_value(parts, name);
                proof {
                    assert(more_segments(tokens@, i as int) == seq![n] + more_segments(
                        tokens@,
                        i + 2,
                    ));
                    assert(before + (seq![n] + more_segments(tokens@, i + 2)) =~= before.push(n)
                        + more_segments(tokens@, i + 2));
                }
                i = i + 2;
            },
            None => {
                assert(more_segments(tokens@, i as int) =~= Seq::empty());
                assert(parts0 + all =~= parts.deep_view());
                return;
            },
        }
    }
    proof {
        assert(more_segments(tokens@, i as int) =~= Seq::empty());
        assert(parts0 + all =~= parts.deep_view());
    }
}

/// The name that the first module declaration of a file gives, if there is one.
pub fn extract_module_name(tokens: &Vec<Token>) -> (r: Option<String>)
    ensures
        r.deep_view() == module_declared(tokens@, 0),
{
    let mut i: usize = 0;
    while i < tokens.len()
        invariant
            module_declared(tokens@, 0) == module_declared(tokens@, i as int),
        decreases tokens.len() - i,
    {
        if let Token::Module = &tokens[i] {
            if tokens.len() - i <= 1 {
                return None;
            }
            if let Token::UpperIdent(name) = &tokens[i + 1] {
                let mut parts: Vec<String> = Vec::new();
                push_value(&mut parts, name.clone());
                assert(parts.deep_view() =~= seq![name@]);
                push_segments(tokens, i + 2, &mut parts);
                return Some(join_text(&parts, "."));
            }
            if tokens.len() - i <= 2 {
                assert(module_declared(tokens@, i + 2) is None);
                return None;
            }
            i = i + 2;
        } else {
            i = i + 1;
        }
    }
    None
}

/// What a source file declares.
pub enum Declared {
    /// The name of its module.
    Module(String),
    /// No module.
    Nothing,
    /// It cannot be read or is not made of tokens, for a reason.
    Unreadable(String),
}

/// A source file: its path, its path within the project, and what it declares.
pub struct ScannedFile {
    pub path: String,
    pub shown: String,
    pub declared: Declared,
}

/// The modules that were found, and the files that were passed over.
pub struct ModuleScan {
    pub map: Table<String, String>,
    pub warnings: Vec<String>,
}

#[verifier::ext_equal]
pub struct ScanModel {
    pub map: Seq<(Seq<char>, Seq<char>)>,
    pub warnings: Seq<Seq<char>>,
}

impl DeepView for ModuleScan {
    type V = ScanModel;

    open spec fn deep_view(&self) -> ScanModel {
        ScanModel { map: self.map.order(), warnings: self.warnings.deep_view() }
    }
}

/// Whether a name is of the modules that come with the language.
pub open spec fn is_reserved(name: Seq<char>) -> bool {
    begins_with(name, "Std."@) || name == "Std"@
}

/// The scan with a file. A module must have a file of its own, and a project may
/// not declare modules of the language.
pub open spec fn with_file(allow_std: bool, s: ScanModel, f: ScannedFile) -> Result<
    ScanModel,
    Seq<char>,
> {
    match f.declared {
        Declared::Module(name) => if !allow_std && is_reserved(name@) {
            Err(
                "module '"@ + name@ + "' in "@ + f.shown@
                    + " uses the reserved `Std` namespace"@,
            )
        } else {
            match at_key(s.map, name@) {
                Some(existing) => Err(
                    "module '"@ + name@ + "' declared in both "@ + existing + " and "@ + f.path@,
                ),
                None => Ok(ScanModel { map: put(s.map, name@, f.path@), ..s }),
            }
        },
        Declared::Nothing => Ok(
            ScanModel {
                warnings: s.warnings.push(
                    "warning: "@ + f.shown@ + " has no module declaration, skipping"@,
                ),
                ..s
            },
        ),
        Declared::Unreadable(reason) => Ok(
            ScanModel {
                warnings: s.warnings.push(
                    "warning: could not scan "@ + f.shown@ + ": "@ + reason@,
                ),
                ..s
            },
        ),
    }
}

pub open spec fn with_files(
    allow_std: bool,
    acc: ScanModel,
    items: Seq<ScannedFile>,
) -> Result<ScanModel, Seq<char>>
    decreases items.len(),
{
    if items.len() == 0 {
        Ok(acc)
    } else {
        match with_files(allow_std, acc, items.drop_last()) {
            Ok(acc) => with_file(allow_std, acc, items.last()),
            Err(e) => Err(e),
        }
    }
}

/// The first failure is the outcome.
proof fn with_files_stops(allow_std: bool, acc: ScanModel, items: Seq<ScannedFile>, n: int)
    requires
        0 <= n <= items.len(),
        with_files(allow_std, acc, items.take(n)) is Err,
    ensures
        with_files(allow_std, acc, items) == with_files(allow_std, acc, items.take(n)),
    decreases items.len(),
{
    if n < items.len() {
        assert(items.drop_last().take(n) =~= items.take(n));
        with_files_stops(allow_std, acc, items.drop_last(), n);
    } else {
        assert(items.take(n) =~= items);
    }
}

fn add_file(allow_std: bool, s: &mut ModuleScan, f: &ScannedFile) -> (r: Result<(), String>)
    ensures
        with_file(allow_std, old(s).deep_view(), *f) == reached(r, final(s).deep_view()),
{
    match &f.declared {
        Declared::Module(name) => {
            if !allow_std && (starts_with(name.as_str(), "Std.") || text_eq(
                name.as_str(),
                "Std",
            )) {
                return Err(
                    concat5(
                        "module '",
                        name.as_str(),
                        "' in ",
                        f.shown.as_str(),
                        " uses the reserved `Std` namespace",
                    ),
                );
            }
            if let Some(existing) = s.map.get(name) {
                let start = concat5(
                    "module '",
                    name.as_str(),
                    "' declared in both ",
                    existing.as_str(),
                    " and ",
                );
                return Err(crate::text::concat(start.as_str(), f.path.as_str()));
            }
            s.map.insert(name.clone(), f.path.clone());
        },
        Declared::Nothing => {
            let warning = concat3(
                "warning: ",
                f.shown.as_str(),
                " has no module declaration, skipping",
            );
            push_value(&mut s.warnings, warning);
        },
        Declared::Unreadable(reason) => {
            let warning = concat4(
                "warning: could not scan ",
                f.shown.as_str(),
                ": ",
                reason.as_str(),
            );
            push_value(&mut s.warnings, warning);
        },
    }
    Ok(())
}

fn add_files(
    allow_std: bool,
    acc: &mut ModuleScan,
    items: &Vec<ScannedFile>,
) -> (r: Result<(), String>)
    ensures
        with_files(allow_std, old(acc).deep_view(), items@) == reached(r, final(acc).deep_view()),
{
    let ghost a0 = acc.deep_view();
    let ghost all = items@;
    let mut i: usize = 0;
    assert(all.take(0) =~= Seq::empty());
    while i < items.len()
        invariant
            i <= items.len(),
            all == items@,
            a0 == old(acc).deep_view(),
            with_files(allow_std, a0, all.take(i as int)) == Ok::<_, Seq<char>>(acc.deep_view()),
        decreases items.len() - i,
    {
        proof {
            assert(all.take(i + 1).drop_last() =~= all.take(i as int));
            assert(all.take(i + 1).last() == all[i as int]);
        }
        let r = add_file(allow_std, acc, &items[i]);
        if let Err(e) = r {
            proof {
                with_files_stops(allow_std, a0, all, i + 1);
            }
            return Err(e);
        }
        i = i + 1;
    }
    assert(all.take(i as int) =~= all);
    Ok(())
}

/// The modules that files declare, or why they cannot be told apart.
pub open spec fn scanned(allow_std: bool, files: Seq<ScannedFile>) -> Result<ScanModel, Seq<char>> {
    with_files(
        allow_std,
        ScanModel { map: Seq::empty(), warnings: Seq::empty() },
        files,
    )
}

fn scan_files(allow_std: bool, files: &Vec<ScannedFile>) -> (r: Result<ModuleScan, String>)
    ensures
        crate::values::outcome(r) == scanned(allow_std, files@),
{
    let warnings: Vec<String> = Vec::new();
    assert(warnings.deep_view() =~= Seq::empty());
    let mut scan = ModuleScan { map: Table::new(), warnings };
    match add_files(allow_std, &mut scan, files) {
        Ok(_) => Ok(scan),
        Err(e) => Err(e),
    }
}

/// The modules of a project, from the files of its source directories.
pub fn scan_project_modules(files: &Vec<ScannedFile>) -> (r: Result<ModuleScan, String>)
    ensures
        crate::values::outcome(r) == scanned(false, files@),
{
    scan_files(false, files)
}

/// The modules of a source directory, from its files. They may be modules of the
/// language.
pub fn scan_source_dir(files: &Vec<ScannedFile>) -> (r: Result<ModuleScan, String>)
    ensures
        crate::values::outcome(r) == scanned(true, files@),
{
    scan_files(true, files)
}

/// Whether a directory is passed over.
pub fn skips_dir(skip_dirs: &Vec<String>, name: &str) -> (r: bool)
    ensures
        r == skip_dirs.deep_view().contains(name@),
{
    contains_name(skip_dirs, name)
}

/// The modules that come with the language.
pub open spec fn builtin_names() -> Seq<Seq<char>> {
    seq![
        "Std.Base"@,
        "Std.Maybe"@,
        "Std.Result"@,
        "Std.List"@,
        "Std.Bool"@,
        "Std.Dict"@,
        "Std.Int"@,
        "Std.Float"@,
        "Std.String"@,
        "Std.Regex"@,
        "Std.Tuple"@,
        "Std.Actor"@,
        "Std.Fail"@,
        "Std.Control"@,
        "Std.Supervisor"@,
        "Std.Async"@,
        "Std.IO.Unsafe"@,
        "Std.IO"@,
        "Std.Math"@,
        "Std.Test"@,
        "Std.Process"@,
        "Std.File"@,
        "Std.Set"@,
        "Std.Time"@,
        "Std.DateTime"@,
        "Std.BitString"@,
        "Std.Dynamic"@,
        "Std.Ref"@,
        "Std.AtomicRef"@,
        "Std.Vec"@,
        "Std.Stream"@,
        "Std.Array"@,
        "Std.Env"@,
        "Std.Generic"@,
    ]
}

fn builtin_name_list() -> (r: Vec<String>)
    ensures
        r.deep_view() == builtin_names(),
{
    let mut out: Vec<String> = Vec::new();
    push_value(&mut out, "Std.Base".to_owned());
    push_value(&mut out, "Std.Maybe".to_owned());
    push_value(&mut out, "Std.Result".to_owned());
    push_value(&mut out, "Std.List".to_owned());
    push_value(&mut out, "Std.Bool".to_owned());
    push_value(&mut out, "Std.Dict".to_owned());
    push_value(&mut out, "Std.Int".to_owned());
    push_value(&mut out, "Std.Float".to_owned());
    push_value(&mut out, "Std.String".to_owned());
    push_value(&mut out, "Std.Regex".to_owned());
    push_value(&mut out, "Std.Tuple".to_owned());
    push_value(&mut out, "Std.Actor".to_owned());
    push_value(&mut out, "Std.Fail".to_owned());
    push_value(&mut out, "Std.Control".to_owned());
    push_value(&mut out, "Std.Supervisor".to_owned());
    push_value(&mut out, "Std.Async".to_owned());
    push_value(&mut out, "Std.IO.Unsafe".to_owned());
    push_value(&mut out, "Std.IO".to_owned());
    push_value(&mut out, "Std.Math".to_owned());
    push_value(&mut out, "Std.Test".to_owned());
    push_value(&mut out, "Std.Process".to_owned());
    push_value(&mut out, "Std.File".to_owned());
    push_value(&mut out, "Std.Set".to_owned());
    push_value(&mut out, "Std.Time".to_owned());
    push_value(&mut out, "Std.DateTime".to_owned());
    push_value(&mut out, "Std.BitString".to_owned());
    push_value(&mut out, "Std.Dynamic".to_owned());
    push_value(&mut out, "Std.Ref".to_owned());
    push_value(&mut out, "Std.AtomicRef".to_owned());
    push_value(&mut out, "Std.Vec".to_owned());
    push_value(&mut out, "Std.Stream".to_owned());
    push_value(&mut out, "Std.Array".to_owned());
    push_value(&mut out, "Std.Env".to_owned());
    push_value(&mut out, "Std.Generic".to_owned());
    assert(out.deep_view() =~= builtin_names());
    out
}

/// Whether a module comes with the language.
pub fn is_builtin_module(name: &str) -> (r: bool)
    ensures
        r == builtin_names().contains(name@),
{
    let names = builtin_name_list();
    contains_name(&names, name)
}

/// The source of a module that comes with the language. `sources` holds them by
/// name.
pub fn builtin_module_source<'a>(
    path: &Vec<String>,
    sources: &'a Table<String, String>,
) -> (r: Option<&'a String>)
    ensures
        r.deep_view() == ({
            let name = joined(path.deep_view(), "."@);
            if builtin_names().contains(name) {
                at_key(sources.order(), name)
            } else {
                None
            }
        }),
{
    let name = join_text(path, ".");
    if is_builtin_module(name.as_str()) {
        sources.get(&name)
    } else {
        None
    }
}

/// A module that a scan found is declared by a file of the scan: each entry of the
/// map comes from a file that declares it.
pub proof fn scanned_modules_are_declared(allow_std: bool, files: Seq<ScannedFile>, i: int)
    requires
        scanned(allow_std, files) is Ok,
        0 <= i < (scanned(allow_std, files)->Ok_0).map.len(),
    ensures
        exists|j: int|
            0 <= j < files.len() && declares(
                #[trigger] files[j],
                (scanned(allow_std, files)->Ok_0).map[i],
            ),
{
    entries_are_declared(
        allow_std,
        ScanModel { map: Seq::empty(), warnings: Seq::empty() },
        files,
        i,
    );
}

/// Whether a file is the one of an entry of a map of modules.
pub open spec fn declares(f: ScannedFile, entry: (Seq<char>, Seq<char>)) -> bool {
    f.declared matches Declared::Module(name) && name@ == entry.0 && f.path@ == entry.1
}

proof fn entries_are_declared(allow_std: bool, s: ScanModel, files: Seq<ScannedFile>, i: int)
    requires
        s.map.len() == 0,
        with_files(allow_std, s, files) is Ok,
        0 <= i < (with_files(allow_std, s, files)->Ok_0).map.len(),
    ensures
        exists|j: int|
            0 <= j < files.len() && declares(
                #[trigger] files[j],
                (with_files(allow_std, s, files)->Ok_0).map[i],
            ),
    decreases files.len(),
{
    if files.len() > 0 {
        let before = with_files(allow_std, s, files.drop_last())->Ok_0;
        let after = with_files(allow_std, s, files)->Ok_0;
        let n = files.len() - 1;
        if i < before.map.len() {
            assert(after.map[i] == before.map[i]);
            entries_are_declared(allow_std, s, files.drop_last(), i);
            let j = choose|j: int|
                0 <= j < files.drop_last().len() && declares(
                    #[trigger] files.drop_last()[j],
                    before.map[i],
                );
            assert(declares(files[j], after.map[i]));
        } else {
            assert(declares(files[n], after.map[i]));
        }
    }
}

} // verus!
