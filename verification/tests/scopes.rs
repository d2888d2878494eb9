//! Import scopes, exports, loading, scanning and the registration of headers.

use saga_typechecker::ast::{
    is_inlineable_expr, Decl, ExposedItem, Exposing, Expr, ExprKind, Kind, Lit, NodeId,
    TypeConstructor, TypeExpr, TypeParam,
};
use saga_typechecker::checker::Checker;
use saga_typechecker::codegen_info::erlang_module_name;
use saga_typechecker::exports::{canonical_export_name, public_names_for_tc};
use saga_typechecker::header_convert::HeaderRegistrationScope;
use saga_typechecker::header_decls::{HeaderFunction, HeaderTraitBound, HeaderTraitRef, ModuleHeader};
use saga_typechecker::header_lsp::collect_header_lsp_info;
use saga_typechecker::header_register::type_contains_effects;
use saga_typechecker::header_syntax::{HeaderEffectRef, HeaderTypeExpr};
use saga_typechecker::import_scope::{is_type_name, resolve_import, synthesize_all_exposed};
use saga_typechecker::infos::{EffectDefInfo, ModuleExports, TraitInfo};
use saga_typechecker::loading::{load_fault, LoadFault, LoadStep, ModulePaths};
use saga_typechecker::scan::{
    builtin_module_source, extract_module_name, is_builtin_module, scan_project_modules,
    scan_source_dir, skips_dir, Declared, ModuleVisibility, ScannedFile,
};
use saga_typechecker::schemes::{Scheme, TypeAliasInfo};
use saga_typechecker::scope::ScopeMap;
use saga_typechecker::subst::Substitution;
use saga_typechecker::table::Table;
use saga_typechecker::token::{Span, Token};
use saga_typechecker::types::Type;
use saga_typechecker::values::Dup;

fn here() -> Span {
    Span { start: 3, end: 9 }
}

fn text(r: Option<&String>) -> Option<&str> {
    r.map(|s| s.as_str())
}

fn strings(names: &[&str]) -> Vec<String> {
    names.iter().map(|n| n.to_string()).collect()
}

fn scheme(ty: Type) -> Scheme {
    Scheme { forall: vec![], constraints: vec![], ty }
}

fn item(name: &str) -> ExposedItem {
    ExposedItem { name: name.to_string(), alias: None, public: false, span: here() }
}

fn renamed(name: &str, alias: &str) -> ExposedItem {
    ExposedItem { name: name.to_string(), alias: Some(alias.to_string()), public: false, span: here() }
}

/// A module `Shapes` with a function, a type with a constructor, an effect and a trait.
fn shapes() -> ModuleExports {
    let mut x = ModuleExports::new();
    x.bindings.push(("area".to_string(), scheme(Type::arrow(Type::int_type(), Type::int_type()))));
    x.bindings.push(("Circle".to_string(), scheme(Type::arrow(Type::int_type(), Type::con("Shape")))));
    x.type_constructors.insert("Shape".to_string(), strings(&["Circle"]));
    x.type_arity.insert("Shape".to_string(), 0);
    x.effects.insert(
        "Draw".to_string(),
        EffectDefInfo { type_params: vec![], ops: vec![], op_spans: Table::new(), source_module: None },
    );
    x.traits.insert(
        "Round".to_string(),
        TraitInfo { type_params: strings(&["a"]), supertraits: vec![], methods: vec![] },
    );
    x
}

fn message<A>(r: Result<A, String>) -> String {
    match r {
        Ok(_) => panic!("expected an error"),
        Err(e) => e,
    }
}

#[test]
fn imports_always_bring_qualified_names() {
    let x = shapes();
    let none: Vec<ExposedItem> = vec![];
    let s = resolve_import(&x, "Geo.Shapes", "Shapes", Some(&none)).unwrap();
    assert_eq!(text(s.resolve_value("Geo.Shapes.area")), Some("Geo.Shapes.area"));
    assert_eq!(text(s.resolve_value("Shapes.area")), Some("Geo.Shapes.area"));
    assert_eq!(text(s.resolve_type("Shapes.Shape")), Some("Geo.Shapes.Shape"));
    assert_eq!(text(s.resolve_constructor("Shapes.Circle")), Some("Geo.Shapes.Circle"));
    assert_eq!(text(s.resolve_effect("Shapes.Draw")), Some("Geo.Shapes.Draw"));
    assert_eq!(text(s.resolve_trait("Shapes.Round")), Some("Geo.Shapes.Round"));
}

#[test]
fn constructors_of_private_types_do_not_come_into_scope() {
    let mut x = shapes();
    let hidden = Scheme { forall: vec![], constraints: vec![], ty: Type::unit() };
    x.inlinable_constructors
        .insert("Shapes.Secret".to_string(), vec![("Shapes.Hide".to_string(), hidden)]);
    let s = resolve_import(&x, "Shapes", "Shapes", None).unwrap();
    assert_eq!(text(s.resolve_constructor("Shapes.Hide")), None);
    assert_eq!(text(s.resolve_value("Shapes.Hide")), None);
    let mut c = Checker::new();
    let none: Vec<ExposedItem> = vec![];
    c.register_module_canonical_exports(&x, "Shapes", None, &none);
    assert!(c.constructors.has_name("Shapes.Hide"));
    assert_eq!(text(c.scope_map.resolve_value("Shapes.area")), None);
}

#[test]
fn only_exposed_names_come_in_bare() {
    let x = shapes();
    let none: Vec<ExposedItem> = vec![];
    let s = resolve_import(&x, "Shapes", "Shapes", Some(&none)).unwrap();
    assert_eq!(text(s.resolve_value("area")), None);
    assert_eq!(text(s.resolve_type("Shape")), None);
    assert_eq!(text(s.resolve_trait("Round")), None);
    let some = vec![item("area"), item("Shape"), renamed("Draw", "Paint")];
    let s = resolve_import(&x, "Shapes", "Shapes", Some(&some)).unwrap();
    assert_eq!(text(s.resolve_value("area")), Some("Shapes.area"));
    assert_eq!(text(s.resolve_type("Shape")), Some("Shapes.Shape"));
    assert_eq!(text(s.resolve_constructor("Circle")), Some("Shapes.Circle"));
    assert_eq!(text(s.resolve_effect("Paint")), Some("Shapes.Draw"));
    assert_eq!(text(s.resolve_effect("Draw")), None);
    let s = resolve_import(&x, "Shapes", "Shapes", None).unwrap();
    assert_eq!(text(s.resolve_trait("Round")), Some("Shapes.Round"));
    assert_eq!(text(s.resolve_value("area")), None);
}

#[test]
fn exposing_a_name_that_is_not_exported_is_refused() {
    let x = shapes();
    let e = message(resolve_import(&x, "Shapes", "S", Some(&vec![item("area"), item("square")])));
    assert_eq!(e, "'square' is not exported by module 'S'");
    let e = message(resolve_import(&x, "Shapes", "S", Some(&vec![item("Square")])));
    assert_eq!(e, "'Square' is not exported by module 'S'");
}

#[test]
fn the_first_letter_tells_types_from_values() {
    assert!(is_type_name("Shape"));
    assert!(is_type_name("\u{c9}tat"));
    assert!(!is_type_name("shape"));
    assert!(!is_type_name("_"));
    assert!(!is_type_name(""));
}

#[test]
fn builtin_types_are_exposed_by_their_home() {
    let x = ModuleExports::new();
    let s = resolve_import(&x, "Std.Dict", "Dict", Some(&vec![item("Dict")])).unwrap();
    assert_eq!(text(s.resolve_type("Dict.Dict")), Some("Std.Dict.Dict"));
    assert_eq!(text(s.resolve_type("Dict")), Some("Std.Dict.Dict"));
    let e = message(resolve_import(&x, "Std.Set", "Set", Some(&vec![item("Dict")])));
    assert_eq!(e, "'Dict' is not exported by module 'Set'");
}

#[test]
fn exposing_all_lists_every_export_once() {
    let items = synthesize_all_exposed(&shapes(), true);
    let names: Vec<&str> = items.iter().map(|i| i.name.as_str()).collect();
    assert_eq!(names, vec!["area", "Circle", "Shape", "Round", "Draw"]);
    assert!(items.iter().all(|i| i.public && i.alias.is_none()));
}

#[test]
fn exposing_all_brings_type_aliases() {
    let mut x = shapes();
    x.type_aliases.insert(
        "Area".to_string(),
        TypeAliasInfo { param_vars: vec![], param_kinds: vec![], body: Type::int_type(), span: here() },
    );
    x.type_arity.insert("Area".to_string(), 0);
    let items = synthesize_all_exposed(&x, false);
    let names: Vec<&str> = items.iter().map(|i| i.name.as_str()).collect();
    assert_eq!(names, vec!["area", "Circle", "Shape", "Area", "Round", "Draw"]);
    let all = resolve_import(&x, "Shapes", "Shapes", Some(&items)).unwrap();
    let by_hand = resolve_import(&x, "Shapes", "Shapes", Some(&vec![item("Area")])).unwrap();
    assert_eq!(text(by_hand.resolve_type("Area")), Some("Shapes.Area"));
    assert_eq!(text(all.resolve_type("Area")), Some("Shapes.Area"));
}

#[test]
fn re_exported_values_stand_for_their_origin() {
    let mut x = shapes();
    x.binding_origins.insert("area".to_string(), "Math.surface".to_string());
    let s = resolve_import(&x, "Shapes", "Shapes", Some(&vec![item("area")])).unwrap();
    assert_eq!(text(s.resolve_value("area")), Some("Math.surface"));
    assert_eq!(text(s.resolve_value("Shapes.area")), Some("Math.surface"));
}

#[test]
fn later_scopes_answer_first() {
    let mut a = ScopeMap::new();
    a.values.insert("x".to_string(), "A.x".to_string());
    a.values.insert("y".to_string(), "A.y".to_string());
    a.register_effect_ops("A.Log", &strings(&["log"]));
    let mut b = ScopeMap::new();
    b.values.insert("x".to_string(), "B.x".to_string());
    b.register_effect_ops("B.Log", &strings(&["log"]));
    a.merge(&b);
    assert_eq!(text(a.resolve_value("x")), Some("B.x"));
    assert_eq!(text(a.resolve_value("y")), Some("A.y"));
    assert_eq!(*a.effect_ops.named("log").unwrap(), strings(&["A.Log", "B.Log"]));
}

#[test]
fn an_import_of_everything_exposes_every_name() {
    let mut c = Checker::new();
    let x = shapes();
    let all = Exposing::All { public: false, span: here() };
    let r = c.typecheck_import(&x, &strings(&["Geo", "Shapes"]), None, Some(&all), here());
    assert!(r.is_ok());
    assert_eq!(text(c.scope_map.resolve_value("area")), Some("Geo.Shapes.area"));
    assert_eq!(text(c.scope_map.resolve_value("Shapes.area")), Some("Geo.Shapes.area"));
    assert_eq!(c.env.get("Geo.Shapes.area").unwrap().ty.display(), "Int -> Int");
    assert_eq!(*c.adt_variants.named("Shape").unwrap(), vec![("Geo.Shapes.Circle".to_string(), 1)]);
    assert_eq!(Checker::import_prefix(&strings(&["Geo", "Shapes"]), Some("G")), "G");
}

#[test]
fn a_refused_import_is_reported_at_its_place() {
    let mut c = Checker::new();
    let items = Exposing::Items(vec![item("missing")]);
    let e = c.typecheck_import(&shapes(), &strings(&["Shapes"]), None, Some(&items), here()).unwrap_err();
    assert_eq!(e.message, "'missing' is not exported by module 'Shapes'");
    assert_eq!(e.span, Some(here()));
}

#[test]
fn registering_exports_twice_changes_nothing() {
    let mut c = Checker::new();
    let none: Vec<ExposedItem> = vec![];
    c.register_module_canonical_exports(&shapes(), "Shapes", None, &none);
    assert_eq!(c.registered_canonical, strings(&["Shapes"]));
    let mut other = ModuleExports::new();
    other.bindings.push(("late".to_string(), scheme(Type::unit())));
    c.register_module_canonical_exports(&other, "Shapes", None, &none);
    assert_eq!(c.registered_canonical, strings(&["Shapes"]));
    assert!(c.env.get("Shapes.late").is_none());
    assert!(c.env.get("Shapes.area").is_some());
}

#[test]
fn canonical_names_of_exports_are_qualified() {
    assert_eq!(canonical_export_name("Shapes", "area"), "Shapes.area");
    assert_eq!(canonical_export_name("", "area"), "area");
}

#[test]
fn erlang_modules_are_named_in_lower_case() {
    assert_eq!(erlang_module_name("Std.IO.Unsafe"), "std_io_unsafe");
    assert_eq!(erlang_module_name("Main"), "main");
}

fn named(name: &str) -> TypeExpr {
    TypeExpr::Named { id: NodeId(0), name: name.to_string(), span: here() }
}

fn signature(id: u32, name: &str, public: bool, doc: &[&str]) -> Decl {
    Decl::FunSignature {
        id: NodeId(id),
        doc: strings(doc),
        public,
        name: name.to_string(),
        name_span: here(),
        params: vec![("n".to_string(), named("Int"))],
        return_type: named("Shape"),
        effects: vec![],
        effect_row_var: vec![],
        where_clause: vec![],
        annotations: vec![],
        span: here(),
    }
}

fn type_def(id: u32, name: &str, public: bool, opaque: bool, ctors: &[&str]) -> Decl {
    Decl::TypeDef {
        id: NodeId(id),
        doc: strings(&["A type."]),
        public,
        opaque,
        name: name.to_string(),
        name_span: here(),
        type_params: vec![TypeParam { name: "a".to_string(), kind: Kind::Star }],
        variants: ctors
            .iter()
            .enumerate()
            .map(|(i, c)| TypeConstructor {
                id: NodeId(id + 1 + i as u32),
                name: c.to_string(),
                fields: vec![(None, TypeExpr::Var { id: NodeId(0), name: "a".to_string(), span: here() })],
                span: here(),
            })
            .collect(),
        span: here(),
    }
}

fn alias(name: &str, public: bool) -> Decl {
    Decl::TypeAlias {
        id: NodeId(90),
        doc: strings(&["Another name."]),
        public,
        name: name.to_string(),
        name_span: here(),
        type_params: vec![],
        body: named("Int"),
        span: here(),
    }
}

fn sample_program() -> Vec<Decl> {
    vec![
        Decl::ModuleDecl { path: strings(&["Geo", "Shapes"]), span: here() },
        signature(1, "area", true, &["The area."]),
        signature(2, "secret", false, &["Hidden."]),
        type_def(10, "Shape", true, false, &["Circle", "Dot"]),
        type_def(20, "Hidden", false, false, &["H"]),
        alias("Size", true),
    ]
}

#[test]
fn public_names_of_a_program_are_listed() {
    let names = public_names_for_tc(&sample_program());
    assert!(names.contains(&"area".to_string()));
    assert!(names.contains(&"Circle".to_string()));
    assert!(!names.contains(&"secret".to_string()));
    assert!(!names.contains(&"H".to_string()));
}

#[test]
fn editors_are_told_of_public_names_only() {
    let info = collect_header_lsp_info(&sample_program());
    assert_eq!(info.defs.named("area").unwrap().0, NodeId(1));
    assert!(info.defs.named("secret").is_none());
    assert_eq!(info.constructors.named("Circle").unwrap().0, NodeId(11));
    assert!(info.constructors.named("H").is_none());
    assert_eq!(*info.docs.named("area").unwrap(), strings(&["The area."]));
    assert_eq!(*info.docs.named("Size").unwrap(), strings(&["Another name."]));
    assert!(info.docs.named("Hidden").is_none());
}

#[test]
fn headers_are_registered_before_bodies() {
    let mut headers: Table<String, ModuleHeader> = Table::new();
    let program = sample_program();
    headers.insert("Geo.Shapes".to_string(), ModuleHeader::from_program(&program));
    let mut c = Checker::new();
    let before = c.next_var;
    c.register_active_scc_headers(Some(&headers), &vec![("Geo.Shapes".to_string(), program)]).unwrap();
    assert_eq!(c.registered_canonical, strings(&["Geo.Shapes"]));
    assert_eq!(c.type_arity.named("Geo.Shapes.Hidden"), Some(&1));
    assert_eq!(c.type_param_kinds.named("Geo.Shapes.Shape"), Some(&vec![Kind::Star]));
    assert_eq!(
        *c.adt_variants.named("Geo.Shapes.Shape").unwrap(),
        vec![("Geo.Shapes.Circle".to_string(), 1), ("Geo.Shapes.Dot".to_string(), 1)]
    );
    let circle = c.constructors.named("Geo.Shapes.Circle").unwrap();
    let sub = Substitution::new();
    assert_eq!(circle.display_with_constraints(&sub), "a -> Shape a");
    assert_eq!(c.lsp.constructor_def_ids.named("Geo.Shapes.Circle"), Some(&NodeId(11)));
    assert_eq!(c.env.get("Geo.Shapes.area").unwrap().ty.display(), "Int -> Shape");
    assert_eq!(c.env.def_id("Geo.Shapes.area"), Some(NodeId(1)));
    assert!(c.env.get("Geo.Shapes.secret").is_none());
    assert_eq!(c.type_aliases.named("Geo.Shapes.Size").unwrap().body.display(), "Int");
    assert_eq!(*c.lsp.imported_docs.named("Geo.Shapes.area").unwrap(), strings(&["The area."]));
    assert_eq!(c.next_var, before + 2);
}

#[test]
fn no_headers_register_nothing() {
    let mut c = Checker::new();
    assert!(c.register_active_scc_headers(None, &vec![]).is_ok());
    assert!(c.registered_canonical.is_empty());
}

#[test]
fn opaque_types_keep_their_constructors() {
    let mut headers: Table<String, ModuleHeader> = Table::new();
    let program = vec![type_def(10, "Key", true, true, &["Key"])];
    headers.insert("M".to_string(), ModuleHeader::from_program(&program));
    let mut c = Checker::new();
    c.register_active_scc_headers(Some(&headers), &vec![]).unwrap();
    assert!(c.constructors.named("M.Key").is_none());
    assert_eq!(c.adt_variants.named("M.Key"), Some(&vec![]));
}

fn own_scope() -> (Table<String, ModuleHeader>, HeaderRegistrationScope) {
    let mut headers: Table<String, ModuleHeader> = Table::new();
    headers.insert("M".to_string(), ModuleHeader::from_program(&vec![type_def(1, "Int", true, false, &[])]));
    let scope = match HeaderRegistrationScope::new("M", headers.named("M").unwrap(), &headers) {
        Ok(s) => s,
        Err(e) => panic!("{}", e),
    };
    (headers, scope)
}

#[test]
fn own_types_hide_builtin_ones() {
    let (_, scope) = own_scope();
    let c = Checker::new();
    assert_eq!(c.resolve_header_type_name("Int", &scope), "M.Int");
    assert_eq!(c.resolve_header_type_name("Bool", &scope), "Std.Bool.Bool");
    assert_eq!(c.resolve_header_type_name("A.B", &scope), "A.B");
    assert_eq!(c.resolve_header_effect_name("Log", &scope), "M.Log");
    assert_eq!(c.resolve_header_effect_name("A.Log", &scope), "A.Log");
}

#[test]
fn header_types_share_variables_and_sort_fields() {
    let (_, scope) = own_scope();
    let mut c = Checker::new();
    let first = c.next_var;
    let mut params: Vec<(String, u32)> = vec![];
    let var = |n: &str| HeaderTypeExpr::Var(n.to_string());
    let record = HeaderTypeExpr::Record(vec![
        ("z".to_string(), var("b")),
        ("a".to_string(), HeaderTypeExpr::Labeled { label: "l".to_string(), inner: Box::new(var("a")) }),
    ]);
    let arrow = HeaderTypeExpr::Arrow {
        from: Box::new(var("a")),
        to: Box::new(record),
        effects: vec![HeaderEffectRef { name: "State".to_string(), type_args: vec![var("a")] }],
        effect_row_vars: vec!["e".to_string()],
    };
    let t = c.header_type_expr_to_type(&arrow, &mut params, &scope);
    let (a, b, e) = (first, first + 1, first + 2);
    assert_eq!(t.display(), format!("?{} -> {{ a: ?{}, z: ?{} }} needs {{M.State ?{}, ..?{}}}", a, a, b, a, e));
    assert_eq!(params, vec![("a".to_string(), a), ("b".to_string(), b), ("e".to_string(), e)]);
    assert!(type_contains_effects(&t));
    let app = HeaderTypeExpr::App { func: Box::new(var("a")), arg: Box::new(HeaderTypeExpr::Symbol("S".to_string())) };
    let t = c.header_type_expr_to_type(&app, &mut params, &scope);
    assert_eq!(t.display(), format!("?{} 'S", a));
    assert!(!type_contains_effects(&t));
}

#[test]
fn header_functions_are_generalized() {
    let (_, scope) = own_scope();
    let mut c = Checker::new();
    let f = HeaderFunction {
        public: true,
        params: vec![("x".to_string(), HeaderTypeExpr::Var("a".to_string()))],
        return_type: HeaderTypeExpr::Named("String".to_string()),
        effects: vec![],
        effect_row_vars: vec![],
        where_clause: vec![HeaderTraitBound {
            type_var: "a".to_string(),
            traits: vec![HeaderTraitRef { name: "A.Show".to_string(), type_args: vec![HeaderTypeExpr::Var("b".to_string())] }],
        }],
    };
    let s = c.header_function_scheme(&f, &scope);
    assert_eq!(s.forall.len(), 2);
    assert_eq!(s.display_with_constraints(&Substitution::new()), "a -> String where {a: A.Show b}");
}

fn paths() -> ModulePaths {
    let mut map: Table<String, String> = Table::new();
    map.insert("Shapes".to_string(), "lib/shapes.saga".to_string());
    let mut visibility: Table<String, ModuleVisibility> = Table::new();
    visibility.insert("Main".to_string(), ModuleVisibility { package: "app".to_string(), exposed: true });
    let mut inner: Table<String, String> = Table::new();
    inner.insert("Inner".to_string(), "lib/inner.saga".to_string());
    let mut private: Table<String, Table<String, String>> = Table::new();
    private.insert("geo".to_string(), inner);
    ModulePaths {
        project_root: Some(".".to_string()),
        map: Some(map),
        visibility: Some(visibility),
        private_modules: Some(private),
    }
}

fn load(c: &Checker, p: &ModulePaths, name: &str, builtin: bool) -> Result<LoadStep, String> {
    c.load_module(p, name, builtin, false, None, here()).map_err(|d| d.message)
}

#[test]
fn modules_are_found_or_refused() {
    let c = Checker::new();
    let p = paths();
    assert!(matches!(load(&c, &p, "Shapes", false), Ok(LoadStep::Read(Some(f))) if f == "lib/shapes.saga"));
    assert!(matches!(load(&c, &p, "Std.Int", true), Ok(LoadStep::Read(None))));
    assert_eq!(message(load(&c, &p, "Nowhere", false)), "unknown module 'Nowhere'");
    assert_eq!(
        message(load(&c, &p, "Inner", false)),
        "module 'Inner' is private to its package and not listed in `expose`"
    );
    let mut bare = paths();
    bare.project_root = None;
    assert_eq!(
        message(load(&c, &bare, "Shapes", false)),
        "cannot import 'Shapes': user module imports require a project (create a project.toml)"
    );
}

#[test]
fn private_modules_are_seen_within_their_package() {
    let mut c = Checker::new();
    let mut p = paths();
    if let Some(v) = &mut p.visibility {
        v.insert("Geo".to_string(), ModuleVisibility { package: "geo".to_string(), exposed: false });
    }
    c.current_module = Some("Geo".to_string());
    assert!(matches!(load(&c, &p, "Inner", false), Ok(LoadStep::Read(Some(f))) if f == "lib/inner.saga"));
}

#[test]
fn a_module_that_is_loading_is_not_loaded_again() {
    let mut c = Checker::new();
    c.begin_loading("Shapes");
    assert_eq!(
        message(load(&c, &paths(), "Shapes", false)),
        "internal error: module 'Shapes' is already loading outside the active import SCC"
    );
    c.end_loading(&strings(&["Shapes"]));
    assert!(load(&c, &paths(), "Shapes", false).is_ok());
}

#[test]
fn modules_that_import_each_other_are_loaded_together() {
    let c = Checker::new();
    let together = strings(&["Shapes", "Paint"]);
    let step = c.load_module(&paths(), "Shapes", false, false, Some(together.dup()), here());
    assert!(matches!(step, Ok(LoadStep::Cycle(ms)) if ms == together));
    let step = c.load_module(&paths(), "Shapes", false, true, Some(together.dup()), here());
    assert!(matches!(step, Ok(LoadStep::Read(_))));
}

#[test]
fn loaded_modules_are_cached_and_their_variables_kept_apart() {
    let mut c = Checker::new();
    let mut mc = Checker::new();
    mc.next_var = 70;
    mc.var_kinds.insert(66, Kind::Symbol);
    let codegen = saga_typechecker::codegen_info::collect_codegen_info(
        "Shapes",
        &vec![],
        &shapes(),
        &Table::new(),
        &ScopeMap::new(),
        &Table::new(),
    );
    c.begin_loading("Shapes");
    c.adopt_module("Shapes", &mc, shapes(), codegen);
    assert_eq!(c.next_var, 70);
    assert_eq!(c.var_kinds.get(&66), Some(&Kind::Symbol));
    assert!(c.loading.is_empty());
    assert!(matches!(load(&c, &paths(), "Shapes", false), Ok(LoadStep::Cached(x)) if x.bindings.len() == 2));
}

#[test]
fn unusable_sources_are_explained() {
    let says = |f: LoadFault| load_fault(f, "M", "why", here()).message;
    assert_eq!(says(LoadFault::Unreadable), "cannot read module 'M': why");
    assert_eq!(says(LoadFault::NotLexed), "lex error in module 'M': why");
    assert_eq!(says(LoadFault::NotParsed), "parse error in module 'M': why");
    assert_eq!(says(LoadFault::IllTyped), "type error in module 'M': why");
}

fn ident(name: &str) -> Token {
    Token::UpperIdent(name.to_string())
}

#[test]
fn module_names_are_read_from_tokens() {
    let tokens = vec![Token::Other, Token::Module, ident("Geo"), Token::Dot, ident("Shapes"), Token::Other];
    assert_eq!(extract_module_name(&tokens), Some("Geo.Shapes".to_string()));
    assert_eq!(extract_module_name(&vec![Token::Module, ident("A"), Token::Dot]), Some("A".to_string()));
    assert_eq!(extract_module_name(&vec![Token::Module]), None);
    assert_eq!(extract_module_name(&vec![Token::Other]), None);
}

fn file(path: &str, declared: Declared) -> ScannedFile {
    ScannedFile { path: format!("/p/{}", path), shown: path.to_string(), declared }
}

fn module(name: &str) -> Declared {
    Declared::Module(name.to_string())
}

#[test]
fn scans_map_modules_to_their_files() {
    let files = vec![
        file("a.saga", module("A")),
        file("notes.saga", Declared::Nothing),
        file("bad.saga", Declared::Unreadable("no".to_string())),
    ];
    let scan = match scan_project_modules(&files) {
        Ok(s) => s,
        Err(e) => panic!("{}", e),
    };
    assert_eq!(scan.map.len(), 1);
    assert_eq!(text(scan.map.named("A")), Some("/p/a.saga"));
    assert_eq!(
        scan.warnings,
        strings(&[
            "warning: notes.saga has no module declaration, skipping",
            "warning: could not scan bad.saga: no",
        ])
    );
}

#[test]
fn scans_refuse_double_and_reserved_modules() {
    let twice = vec![file("a.saga", module("A")), file("b.saga", module("A"))];
    assert_eq!(message(scan_project_modules(&twice)), "module 'A' declared in both /p/a.saga and /p/b.saga");
    let reserved = vec![file("s.saga", module("Std.Int"))];
    assert_eq!(
        message(scan_project_modules(&reserved)),
        "module 'Std.Int' in s.saga uses the reserved `Std` namespace"
    );
    assert!(scan_source_dir(&reserved).is_ok());
    let near = vec![file("s.saga", module("Stdlib"))];
    assert!(scan_project_modules(&near).is_ok());
}

#[test]
fn some_directories_are_passed_over() {
    let skipped = strings(&["tests", "deps"]);
    assert!(skips_dir(&skipped, "deps"));
    assert!(!skips_dir(&skipped, "src"));
}

#[test]
fn builtin_modules_come_with_the_language() {
    assert!(is_builtin_module("Std.IO.Unsafe"));
    assert!(!is_builtin_module("Std.Nothing"));
    let mut sources: Table<String, String> = Table::new();
    sources.insert("Std.Math".to_string(), "module Std.Math".to_string());
    sources.insert("Mine".to_string(), "module Mine".to_string());
    assert_eq!(text(builtin_module_source(&strings(&["Std", "Math"]), &sources)), Some("module Std.Math"));
    assert_eq!(text(builtin_module_source(&strings(&["Mine"]), &sources)), None);
}

#[test]
fn plain_expressions_can_be_inlined() {
    let expr = |kind: ExprKind| Expr { id: NodeId(1), kind, span: here() };
    let one = || expr(ExprKind::Lit { value: Lit::Int("1".to_string()) });
    assert!(is_inlineable_expr(&one()));
    assert!(!is_inlineable_expr(&expr(ExprKind::Lit { value: Lit::Unit })));
    assert!(is_inlineable_expr(&expr(ExprKind::Tuple { elements: vec![one(), expr(ExprKind::Var { name: "x".to_string() })] })));
    assert!(!is_inlineable_expr(&expr(ExprKind::ListLit { elements: vec![one(), expr(ExprKind::Other)] })));
}
