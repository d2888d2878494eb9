//! Module graphs, module headers and the scopes of imports, from source text.

use saga_typechecker::ast::{
    Decl, EffectOp, EffectRef, ExposedItem, Exposing, Expr, ExprKind, HandlerArm, HandlerBody,
    Kind, Lit, NodeId, Pat, TraitBound, TraitMethod, TraitRef, TypeConstructor, TypeExpr,
    TypeParam,
};
use saga_typechecker::checker::Checker;
use saga_typechecker::codegen_info::{collect_codegen_info, ModuleCodegenInfo};
use saga_typechecker::cycle_run::CycleStage;
use saga_typechecker::graph::ModuleGraph;
use saga_typechecker::graph_build::{
    build_module_graph, build_module_graph_with_sources, build_reachable_module_graph_with_sources,
    cycle_containing, Loaded, ModuleIndex,
};
use saga_typechecker::header_decls::{
    HeaderExposedItem, HeaderExposing, HeaderReExport, HeaderReExportAll, HeaderTypeDecl,
    ModuleHeader,
};
use saga_typechecker::header_scope::{resolve_header_import, scope_for_header_imports};
use saga_typechecker::header_syntax::HeaderVisibility;
use saga_typechecker::infos::ModuleExports;
use saga_typechecker::loading::LoadFault;
use saga_typechecker::table::Table;
use saga_typechecker::tarjan::ModuleScc;
use saga_typechecker::token::Span;

// A small reader of declarations: enough of the language for the headers below.

#[derive(Debug, Clone, PartialEq)]
enum Tok {
    Word(String),
    Sign(String),
    Newline,
}

fn lex(src: &str) -> Vec<Tok> {
    let chars: Vec<char> = src.chars().collect();
    let mut out = Vec::new();
    let mut i = 0;
    while i < chars.len() {
        let c = chars[i];
        if c == '\n' {
            out.push(Tok::Newline);
            i += 1;
        } else if c.is_whitespace() {
            i += 1;
        } else if c.is_alphanumeric() || c == '_' {
            let start = i;
            while i < chars.len() && (chars[i].is_alphanumeric() || chars[i] == '_') {
                i += 1;
            }
            out.push(Tok::Word(chars[start..i].iter().collect()));
        } else if c == '"' {
            let start = i;
            i += 1;
            while chars[i] != '"' {
                i += 1;
            }
            i += 1;
            out.push(Tok::Sign(chars[start..i].iter().collect()));
        } else if i + 1 < chars.len() && (c == '-' && chars[i + 1] == '>' || c == '.' && chars[i + 1] == '.') {
            out.push(Tok::Sign(chars[i..i + 2].iter().collect()));
            i += 2;
        } else {
            out.push(Tok::Sign(c.to_string()));
            i += 1;
        }
    }
    out
}

struct Reader {
    toks: Vec<Tok>,
    at: usize,
    next_id: u32,
}

fn span() -> Span {
    Span { start: 0, end: 0 }
}

impl Reader {
    fn id(&mut self) -> NodeId {
        self.next_id += 1;
        NodeId(self.next_id)
    }

    fn peek(&self) -> Option<&Tok> {
        self.toks.get(self.at)
    }

    fn skip_newlines(&mut self) {
        while self.peek() == Some(&Tok::Newline) {
            self.at += 1;
        }
    }

    fn eat(&mut self, text: &str) -> bool {
        let found = match self.peek() {
            Some(Tok::Word(w)) => w == text,
            Some(Tok::Sign(s)) => s == text,
            _ => false,
        };
        if found {
            self.at += 1;
        }
        found
    }

    fn expect(&mut self, text: &str) {
        if !self.eat(text) {
            panic!("expected {} at {:?}", text, self.peek());
        }
    }

    fn word(&mut self) -> String {
        match self.peek().cloned() {
            Some(Tok::Word(w)) => {
                self.at += 1;
                w
            }
            other => panic!("expected a word at {:?}", other),
        }
    }

    fn at_word(&self) -> bool {
        match self.peek() {
            Some(Tok::Word(_)) => true,
            _ => false,
        }
    }

    fn at_name(&self) -> bool {
        match self.peek() {
            Some(Tok::Word(w)) => w != "needs" && w != "where" && w != "for",
            _ => false,
        }
    }

    fn dotted(&mut self) -> Vec<String> {
        let mut path = vec![self.word()];
        while self.eat(".") {
            path.push(self.word());
        }
        path
    }

    fn rest_of_line(&mut self) {
        while self.at < self.toks.len() && self.peek() != Some(&Tok::Newline) {
            self.at += 1;
        }
    }

    fn body(&mut self) -> Expr {
        self.rest_of_line();
        Expr { id: self.id(), kind: ExprKind::Lit { value: Lit::Unit }, span: span() }
    }

    fn type_params(&mut self) -> Vec<TypeParam> {
        let mut out = Vec::new();
        while self.at_word() {
            out.push(TypeParam { name: self.word(), kind: Kind::Star });
        }
        out
    }

    fn atom(&mut self) -> TypeExpr {
        if self.eat("(") {
            let inner = self.type_expr();
            self.expect(")");
            return inner;
        }
        let name = self.word();
        let id = self.id();
        if name.chars().next().unwrap().is_lowercase() {
            TypeExpr::Var { id, name, span: span() }
        } else {
            TypeExpr::Named { id, name, span: span() }
        }
    }

    fn applied(&mut self) -> TypeExpr {
        let mut ty = self.atom();
        while self.at_name() || self.peek() == Some(&Tok::Sign("(".to_string())) {
            let arg = self.atom();
            ty = TypeExpr::App { id: self.id(), func: Box::new(ty), arg: Box::new(arg), span: span() };
        }
        ty
    }

    fn type_expr(&mut self) -> TypeExpr {
        let from = self.applied();
        if self.eat("->") {
            let to = self.type_expr();
            return TypeExpr::Arrow {
                id: self.id(),
                from: Box::new(from),
                to: Box::new(to),
                effects: vec![],
                effect_row_var: vec![],
                span: span(),
            };
        }
        from
    }

    fn effect_ref(&mut self) -> EffectRef {
        let name = self.dotted().join(".");
        let mut type_args = Vec::new();
        while self.at_name() {
            type_args.push(self.atom());
        }
        EffectRef { id: self.id(), name, type_args, span: span() }
    }

    fn needs(&mut self) -> Vec<EffectRef> {
        let mut out = Vec::new();
        if self.eat("needs") {
            self.expect("{");
            while !self.eat("}") {
                out.push(self.effect_ref());
                self.eat(",");
            }
        }
        out
    }

    fn where_clause(&mut self) -> Vec<TraitBound> {
        let mut out = Vec::new();
        if self.eat("where") {
            self.expect("{");
            while !self.eat("}") {
                let type_var = self.word();
                self.expect(":");
                let name = self.word();
                let id = self.id();
                out.push(TraitBound {
                    type_var,
                    traits: vec![TraitRef { id, name, type_args: vec![], span: span() }],
                });
                self.eat(",");
            }
        }
        out
    }

    // `a -> b -> c`, of which all but the last are parameters; a parameter may have
    // a label.
    fn signature(&mut self) -> (Vec<(String, TypeExpr)>, TypeExpr) {
        let mut parts: Vec<(String, TypeExpr)> = Vec::new();
        loop {
            let labelled = self.peek() == Some(&Tok::Sign("(".to_string()))
                && self.toks.get(self.at + 2) == Some(&Tok::Sign(":".to_string()));
            if labelled {
                self.expect("(");
                let label = self.word();
                self.expect(":");
                let ty = self.type_expr();
                self.expect(")");
                parts.push((label, ty));
            } else {
                let ty = self.applied();
                parts.push(("_".to_string(), ty));
            }
            if !self.eat("->") {
                break;
            }
        }
        let result = parts.pop().unwrap().1;
        (parts, result)
    }

    fn exposing(&mut self) -> Option<Exposing> {
        if !self.eat("(") {
            return None;
        }
        let mut items = Vec::new();
        while !self.eat(")") {
            let public = self.eat("pub");
            if self.eat("..") {
                self.expect(")");
                return Some(Exposing::All { public, span: span() });
            }
            let name = self.word();
            let alias = if self.eat("as") { Some(self.word()) } else { None };
            items.push(ExposedItem { name, alias, public, span: span() });
            self.eat(",");
        }
        Some(Exposing::Items(items))
    }

    fn variants(&mut self) -> Vec<TypeConstructor> {
        let mut out = Vec::new();
        loop {
            let name = self.word();
            let mut fields = Vec::new();
            while self.at_word() {
                fields.push((None, self.atom()));
            }
            out.push(TypeConstructor { id: self.id(), name, fields, span: span() });
            if !self.eat("|") {
                return out;
            }
        }
    }

    fn declaration(&mut self) -> Decl {
        if self.eat("module") {
            return Decl::ModuleDecl { path: self.dotted(), span: span() };
        }
        if self.eat("import") {
            let module = self.dotted();
            let alias = if self.eat("as") { Some(self.word()) } else { None };
            let exposing = self.exposing();
            return Decl::Import { id: self.id(), module, alias, exposing, span: span() };
        }
        let public = self.eat("pub");
        let opaque = self.eat("opaque");
        let id = self.id();
        let name_span = span();
        if self.eat("fun") {
            let name = self.word();
            self.expect(":");
            let (params, return_type) = self.signature();
            let effects = self.needs();
            let where_clause = self.where_clause();
            return Decl::FunSignature {
                id,
                doc: vec![],
                public,
                name,
                name_span,
                params,
                return_type,
                effects,
                effect_row_var: vec![],
                where_clause,
                annotations: vec![],
                span: span(),
            };
        }
        if self.eat("type") {
            if self.eat("alias") {
                let name = self.word();
                let type_params = self.type_params();
                self.expect("=");
                let body = self.type_expr();
                return Decl::TypeAlias { id, doc: vec![], public, name, name_span, type_params, body, span: span() };
            }
            let name = self.word();
            let type_params = self.type_params();
            self.expect("=");
            let variants = self.variants();
            return Decl::TypeDef {
                id,
                doc: vec![],
                public,
                opaque,
                name,
                name_span,
                type_params,
                variants,
                span: span(),
            };
        }
        if self.eat("record") {
            let name = self.word();
            let type_params = self.type_params();
            self.expect("{");
            let mut fields = Vec::new();
            while !self.eat("}") {
                let field = self.word();
                self.expect(":");
                fields.push((field, self.type_expr()));
                self.eat(",");
            }
            return Decl::RecordDef {
                id,
                doc: vec![],
                public,
                name,
                name_span,
                type_params,
                fields,
                span: span(),
            };
        }
        if self.eat("trait") {
            let name = self.word();
            let type_params = self.type_params();
            self.expect("{");
            let mut methods = Vec::new();
            self.skip_newlines();
            while !self.eat("}") {
                self.expect("fun");
                let method = self.word();
                self.expect(":");
                let (params, return_type) = self.signature();
                let effects = self.needs();
                methods.push(TraitMethod {
                    name: method,
                    params,
                    return_type,
                    effects,
                    effect_row_var: vec![],
                    span: span(),
                });
                self.skip_newlines();
            }
            return Decl::TraitDef {
                id,
                doc: vec![],
                public,
                name,
                name_span,
                type_params,
                functional_dependency: None,
                supertraits: vec![],
                methods,
                span: span(),
            };
        }
        if self.eat("effect") {
            let name = self.word();
            let type_params = self.type_params();
            self.expect("{");
            let mut operations = Vec::new();
            self.skip_newlines();
            while !self.eat("}") {
                self.expect("fun");
                let op = self.word();
                self.expect(":");
                let (params, return_type) = self.signature();
                let effects = self.needs();
                operations.push(EffectOp {
                    name: op,
                    params,
                    return_type,
                    effects,
                    effect_row_var: vec![],
                    where_clause: vec![],
                    span: span(),
                });
                self.skip_newlines();
            }
            return Decl::EffectDef {
                id,
                doc: vec![],
                public,
                name,
                name_span,
                type_params,
                operations,
                span: span(),
            };
        }
        if self.eat("handler") {
            let name = self.word();
            self.expect("for");
            let effects = vec![self.effect_ref()];
            let needs = self.needs();
            self.expect("{");
            self.skip_newlines();
            let mut arms = Vec::new();
            while !self.eat("}") {
                let op_name = self.word();
                let body = self.body();
                arms.push(HandlerArm { op_name, params: vec![], body, finally_block: None, span: span() });
                self.skip_newlines();
            }
            return Decl::HandlerDef {
                id,
                doc: vec![],
                public,
                name,
                name_span,
                body: HandlerBody { effects, needs, where_clause: vec![], arms, return_clause: None },
                span: span(),
            };
        }
        let name = self.word();
        let mut params = Vec::new();
        while !self.eat("=") {
            let pat_id = self.id();
            if self.eat("(") {
                self.expect(")");
                params.push(Pat::Other { id: pat_id, span: span() });
            } else {
                params.push(Pat::Var { id: pat_id, name: self.word(), span: span() });
            }
        }
        let body = self.body();
        Decl::FunBinding { id, name, name_span, params, guard: None, body, span: span() }
    }
}

fn parse(src: &str) -> Vec<Decl> {
    let mut reader = Reader { toks: lex(src), at: 0, next_id: 0 };
    let mut out = Vec::new();
    reader.skip_newlines();
    while reader.at < reader.toks.len() {
        out.push(reader.declaration());
        reader.skip_newlines();
    }
    out
}

fn header(src: &str) -> ModuleHeader {
    ModuleHeader::from_program(&parse(src))
}

fn headers(modules: &[(&str, &str)]) -> Table<String, ModuleHeader> {
    let mut out = Table::new();
    for (name, src) in modules {
        out.insert(name.to_string(), header(src));
    }
    out
}

fn graph(edges: &[(&str, &[&str])]) -> ModuleGraph {
    let mut adjacency = Table::new();
    for (module, deps) in edges {
        adjacency.insert(module.to_string(), deps.iter().map(|d| d.to_string()).collect::<Vec<String>>());
    }
    ModuleGraph { adjacency }
}

fn text(found: Option<&String>) -> Option<&str> {
    found.map(|s| s.as_str())
}

fn exposed(name: &str) -> HeaderExposedItem {
    HeaderExposedItem { name: name.to_string(), alias: None, public: false }
}

#[test]
fn module_graph_records_import_edges_without_typechecking() {
    let a = parse("module A\nimport B\npub type AType = AType\n");
    let b = parse("module B\nimport A\nimport C (pub value)\npub type BType = BType\n");
    let c = parse("module C\npub fun value : Unit -> Unit\nvalue () = ()\n");

    let graph = ModuleGraph::from_programs(&vec![
        ("A".to_string(), a),
        ("B".to_string(), b),
        ("C".to_string(), c),
    ]);

    assert_eq!(graph.dependencies("A"), Some(&vec!["B".to_string()]));
    assert_eq!(
        graph.dependencies("B"),
        Some(&vec!["A".to_string(), "C".to_string()])
    );
    assert_eq!(graph.dependencies("C"), Some(&vec![]));
}

#[test]
fn strongly_connected_components_group_mutual_imports() {
    let graph = graph(&[("A", &["B"]), ("B", &["A", "C"]), ("C", &[])]);

    let mut components = graph.strongly_connected_components();
    components.sort_by_key(ModuleScc::sort_key);

    assert_eq!(
        components,
        vec![
            ModuleScc {
                modules: vec!["A".to_string(), "B".to_string()],
            },
            ModuleScc {
                modules: vec!["C".to_string()],
            },
        ]
    );
    assert!(components[0].is_cycle());
}

#[test]
fn dependency_ordered_sccs_put_dependencies_first() {
    let graph = graph(&[
        ("A", &["B"]),
        ("B", &["A", "C"]),
        ("C", &["D"]),
        ("D", &[]),
        ("E", &["A"]),
    ]);

    let ordered = graph.dependency_ordered_sccs();

    assert_eq!(
        ordered,
        vec![
            ModuleScc {
                modules: vec!["D".to_string()],
            },
            ModuleScc {
                modules: vec!["C".to_string()],
            },
            ModuleScc {
                modules: vec!["A".to_string(), "B".to_string()],
            },
            ModuleScc {
                modules: vec!["E".to_string()],
            },
        ]
    );
}

#[test]
fn module_header_is_extractable_from_ast_only() {
    let program = parse(
        r#"
module A

import B (pub Choice as BChoice, helper)
import C (pub ..)

pub fun render : (user: User a) -> String needs {Log} where {a: Label}
render user = user.name

pub type Choice a = Left a | Right String
pub opaque type Secret = Secret Int
pub type alias Name = String
pub record User a { name: String, value: a }

pub trait Label a {
  fun label : a -> String needs {Log}
}

pub effect Ask a {
  fun ask : Unit -> a needs {Log}
}

pub handler ask_once for Ask String needs {Log} {
  ask () = resume "ok"
}
"#,
    );

    let header = ModuleHeader::from_program(&program);

    assert_eq!(header.module_name.as_deref(), Some("A"));
    assert_eq!(
        header
            .imports
            .iter()
            .map(|i| i.module.as_str())
            .collect::<Vec<_>>(),
        vec!["B", "C"]
    );
    assert_eq!(
        header.re_exports,
        vec![HeaderReExport {
            surface_name: "BChoice".to_string(),
            origin_module: "B".to_string(),
            origin_name: "Choice".to_string(),
            visibility: HeaderVisibility::Public,
        }]
    );
    assert_eq!(
        header.re_export_all,
        vec![HeaderReExportAll {
            origin_module: "C".to_string(),
            visibility: HeaderVisibility::Public,
        }]
    );

    let render = header.functions.named("render").expect("render signature");
    assert!(render.public);
    assert_eq!(render.effects[0].name, "Log");
    assert_eq!(render.where_clause[0].traits[0].name, "Label");

    let choice = header.types.named("Choice").expect("Choice type");
    assert_eq!(choice.arity(), 1);
    let HeaderTypeDecl::Adt {
        opaque,
        constructors,
        ..
    } = choice
    else {
        panic!("expected ADT");
    };
    assert!(!opaque);
    assert_eq!(
        constructors
            .iter()
            .map(|c| c.name.as_str())
            .collect::<Vec<_>>(),
        vec!["Left", "Right"]
    );

    let secret = header.types.named("Secret").expect("Secret type");
    let HeaderTypeDecl::Adt { opaque, .. } = secret else {
        panic!("expected opaque ADT");
    };
    assert!(opaque);

    let user = header.records.named("User").expect("User record");
    assert_eq!(
        user.fields
            .iter()
            .map(|(name, _)| name.as_str())
            .collect::<Vec<_>>(),
        vec!["name", "value"]
    );

    let label = header.traits.named("Label").expect("Label trait");
    assert_eq!(label.methods[0].name, "label");
    assert_eq!(label.methods[0].effects[0].name, "Log");

    let ask = header.effects.named("Ask").expect("Ask effect");
    assert_eq!(ask.operations[0].name, "ask");
    assert_eq!(ask.operations[0].effects[0].name, "Log");

    let handler = header.handlers.named("ask_once").expect("handler");
    assert_eq!(handler.effects[0].name, "Ask");
    assert_eq!(handler.needs[0].name, "Log");
}

#[test]
fn header_import_scope_uses_headers_without_inference() {
    let headers = headers(&[(
        "B",
        r#"
module B

pub fun make : Unit -> Choice
make () = Left

pub type Choice = Left | Right
pub record User { name: String }
"#,
    )]);

    let scope = resolve_header_import(
        &headers,
        "B",
        "B",
        Some(&HeaderExposing::Items(vec![
            exposed("make"),
            exposed("Choice"),
            exposed("User"),
        ])),
    )
    .expect("header scope");

    assert_eq!(text(scope.resolve_value("make")), Some("B.make"));
    assert_eq!(text(scope.resolve_type("Choice")), Some("B.Choice"));
    assert_eq!(text(scope.resolve_constructor("Left")), Some("B.Left"));
    assert_eq!(text(scope.resolve_constructor("User")), Some("B.User"));
}

#[test]
fn header_scope_follows_re_export_edges_to_origin() {
    let headers = headers(&[
        (
            "A",
            r#"
module A
import B (pub value as exposed, pub Choice as PublicChoice)
"#,
        ),
        (
            "B",
            r#"
module B
pub fun value : Unit -> Unit
value () = ()
pub type Choice = Pick
"#,
        ),
        (
            "C",
            r#"
module C
import A (exposed, PublicChoice)
"#,
        ),
    ]);
    let c = headers.named("C").expect("C");

    let scope = scope_for_header_imports(c, &headers).expect("header scope");

    assert_eq!(text(scope.resolve_value("exposed")), Some("B.value"));
    assert_eq!(text(scope.resolve_value("A.exposed")), Some("B.value"));
    assert_eq!(text(scope.resolve_type("PublicChoice")), Some("B.Choice"));
    assert_eq!(text(scope.resolve_constructor("Pick")), Some("B.Pick"));
}

#[test]
fn header_scope_reports_ungrounded_re_export_cycle() {
    let headers = headers(&[
        (
            "A",
            r#"
module A
import B (pub x)
"#,
        ),
        (
            "B",
            r#"
module B
import A (pub x)
"#,
        ),
    ]);

    let err = match resolve_header_import(
        &headers,
        "A",
        "A",
        Some(&HeaderExposing::Items(vec![exposed("x")])),
    ) {
        Ok(_) => panic!("cycle"),
        Err(err) => err,
    };

    assert!(err.contains("re-export cycle"));
}

#[test]
fn header_scope_treats_pub_dot_dot_cycle_as_not_found() {
    let headers = headers(&[
        (
            "B",
            r#"
module B
import C (pub ..)
"#,
        ),
        (
            "C",
            r#"
module C
import B (pub ..)
"#,
        ),
    ]);

    let err = match resolve_header_import(
        &headers,
        "B",
        "B",
        Some(&HeaderExposing::Items(vec![exposed("Missing")])),
    ) {
        Ok(_) => panic!("missing export"),
        Err(err) => err,
    };

    assert!(err.contains("'Missing' is not exported by module 'B'"));
}

fn module_map(modules: &[&str]) -> Table<String, String> {
    let mut map = Table::new();
    for m in modules {
        map.insert(m.to_string(), format!("{}.saga", m));
    }
    map
}

fn files(sources: &[(&str, &str)]) -> Table<String, Loaded> {
    let mut out = Table::new();
    for (module, src) in sources {
        out.insert(format!("{}.saga", module), Loaded::Program(parse(src)));
    }
    out
}

#[test]
fn build_module_graph_reads_project_module_map() {
    let map = module_map(&["A", "B"]);
    let files = files(&[
        ("A", "module A\nimport B\npub type AType = AType\n"),
        ("B", "module B\nimport A\npub type BType = BType\n"),
    ]);

    let graph = build_module_graph(&map, &files).expect("graph");
    assert_eq!(graph.dependencies("A"), Some(&vec!["B".to_string()]));
    assert_eq!(graph.dependencies("B"), Some(&vec!["A".to_string()]));
}

#[test]
fn overlays_take_the_place_of_files() {
    let map = module_map(&["A"]);
    let on_disk = files(&[("A", "module A\nimport B\n")]);
    let overlay = files(&[("A", "module A\nimport C\n")]);
    let graph = build_module_graph_with_sources(&map, &on_disk, &overlay).expect("graph");
    assert_eq!(graph.dependencies("A"), Some(&vec!["C".to_string()]));
}

#[test]
fn unusable_files_have_no_graph() {
    let map = module_map(&["A"]);
    let graph_of = |loaded: Loaded| {
        let mut files = Table::new();
        files.insert("A.saga".to_string(), loaded);
        match build_module_graph(&map, &files) {
            Ok(_) => panic!("no graph"),
            Err(e) => e,
        }
    };
    assert_eq!(graph_of(Loaded::Unreadable("gone".to_string())), "cannot read module 'A': gone");
    assert_eq!(graph_of(Loaded::NotLexed("odd".to_string())), "lex error in module 'A': odd");
    assert_eq!(graph_of(Loaded::NotParsed("bad".to_string())), "parse error in module 'A': bad");
}

#[test]
fn reachable_graphs_hold_what_a_module_needs() {
    let map = module_map(&["A", "B", "C"]);
    let files = files(&[
        ("A", "module A\nimport B\n"),
        ("B", "module B\nimport Std.Int\n"),
        ("C", "module C\nimport A\n"),
    ]);
    let graph = build_reachable_module_graph_with_sources(&map, "A", &files, &Table::new()).expect("graph");
    assert_eq!(graph.dependencies("A"), Some(&vec!["B".to_string()]));
    assert_eq!(graph.dependencies("B"), Some(&vec!["Std.Int".to_string()]));
    assert_eq!(graph.dependencies("C"), None);
    assert_eq!(graph.modules(), vec!["A".to_string(), "B".to_string(), "Std.Int".to_string()]);
}

#[test]
fn cycles_are_found_by_a_module_in_them() {
    let graph = graph(&[("A", &["B"]), ("B", &["A", "C"]), ("C", &[]), ("D", &["D"])]);
    assert_eq!(cycle_containing(&graph, "B"), Some(vec!["A".to_string(), "B".to_string()]));
    assert_eq!(cycle_containing(&graph, "C"), None);
    assert_eq!(cycle_containing(&graph, "D"), Some(vec!["D".to_string()]));
    let mut index = ModuleIndex { map: None, module_graph: None };
    assert_eq!(index.cyclic_component_containing("A", &Table::new()), Ok(None));
}

#[test]
fn own_names_come_before_re_exported_ones() {
    let headers = headers(&[
        (
            "A",
            "module A\nimport B (pub value, pub Choice)\npub fun value : Unit -> Unit\nvalue () = ()\n",
        ),
        (
            "B",
            "module B\npub fun value : Unit -> Unit\nvalue () = ()\npub type Choice = Pick\ntype Hidden = Secret\n",
        ),
    ]);
    let scope = resolve_header_import(&headers, "A", "A", None).expect("scope");
    assert_eq!(text(scope.resolve_value("A.value")), Some("A.value"));
    assert_eq!(text(scope.resolve_type("A.Choice")), Some("B.Choice"));
    let scope = resolve_header_import(&headers, "B", "B", None).expect("scope");
    assert_eq!(text(scope.resolve_type("B.Choice")), Some("B.Choice"));
    assert_eq!(text(scope.resolve_type("B.Hidden")), None);
}

#[test]
fn unknown_modules_have_no_header_scope() {
    let headers = headers(&[]);
    let err = match resolve_header_import(&headers, "A", "A", None) {
        Ok(_) => panic!("unknown"),
        Err(err) => err,
    };
    assert_eq!(err, "unknown module 'A'");
}

#[test]
fn graphs_of_headers_have_their_imports_as_edges() {
    let a = header("module A\nimport B\n");
    let b = header("module B\n");
    let order = ModuleGraph::from_headers(&vec![a, b]).dependency_ordered_sccs();
    let names: Vec<&str> = order.iter().map(|scc| scc.modules[0].as_str()).collect();
    assert_eq!(names, vec!["B", "A"]);
}

fn described() -> ModuleCodegenInfo {
    let c = Checker::new();
    let x = ModuleExports::new();
    collect_codegen_info("A", &vec![], &x, &c.effects, &c.scope_map, &Table::new())
}

#[test]
fn cycles_are_read_then_checked_then_settled() {
    let (a, b) = ("module A\nimport B\n", "module B\nimport A\n");
    let mut map = Table::new();
    map.insert("A".to_string(), "a.saga".to_string());
    map.insert("B".to_string(), "b.saga".to_string());
    let modules = vec!["A".to_string(), "B".to_string()];
    let mut c = Checker::new();
    let mut run = c.begin_cycle(Some(&map), modules, span());
    assert_eq!(run.stage, CycleStage::Read(0));
    c.cycle_parsed(&map, &mut run, &parse(a));
    assert_eq!(run.stage, CycleStage::Read(1));
    assert!(c.loading.is_empty());
    c.cycle_parsed(&map, &mut run, &parse(b));
    assert_eq!(run.stage, CycleStage::Check(0));
    assert_eq!(c.loading, vec!["A".to_string(), "B".to_string()]);
    assert!(run.headers.has_name("A") && run.headers.has_name("B"));
    let mut mc = Checker::new();
    mc.current_module = Some("A".to_string());
    mc.next_var = 70;
    c.cycle_checked(&mut run, parse(a), mc);
    assert_eq!(run.stage, CycleStage::Check(1));
    assert_eq!(c.next_var, 70);
    let mut mc = Checker::new();
    mc.current_module = Some("B".to_string());
    c.cycle_checked(&mut run, parse(b), mc);
    assert_eq!(run.stage, CycleStage::Codegen(0));
    assert!(c.exports.has_name("A") && c.exports.has_name("B"));
    c.cycle_described(&mut run, described());
    c.cycle_described(&mut run, described());
    assert_eq!(run.stage, CycleStage::Done);
    assert!(c.loading.is_empty());
    assert!(c.codegen_info.has_name("B"));
}

#[test]
fn a_cycle_with_a_faulty_module_is_not_loaded() {
    let modules = || vec!["A".to_string(), "B".to_string()];
    let mut c = Checker::new();
    let run = c.begin_cycle(None, modules(), span());
    assert_eq!(run.error.unwrap().message, "internal error: SCC loading requires a module map");
    let mut map = Table::new();
    map.insert("A".to_string(), "a.saga".to_string());
    let mut run = c.begin_cycle(Some(&map), modules(), span());
    c.cycle_parsed(&map, &mut run, &parse("module A\n"));
    assert_eq!(run.stage, CycleStage::Failed);
    assert_eq!(run.error.unwrap().message, "unknown module 'B' in import cycle");
    let mut run = c.begin_cycle(Some(&map), vec!["A".to_string()], span());
    c.cycle_parsed(&map, &mut run, &parse("module A\n"));
    assert_eq!(c.loading, vec!["A".to_string()]);
    c.cycle_faulty(&mut run, LoadFault::IllTyped, "no");
    assert_eq!(run.error.unwrap().message, "type error in module 'A': no");
    assert!(c.loading.is_empty());
    c.exports.insert("A".to_string(), ModuleExports::new());
    let run = c.begin_cycle(Some(&map), vec!["A".to_string()], span());
    assert_eq!(run.stage, CycleStage::Done);
}
