//! Traits, impls, constraints, effects, handlers, functions and whole programs.

use saga_typechecker::annotations::{Annotations, SignatureParts, WhereParts};
use saga_typechecker::ast::{
    Annotation, Decl, EffectOp, EffectRef, Expr, ExprKind, HandlerArm, HandlerBody, ImplMethod,
    Kind, NodeId, Pat, TraitApp, TraitBound, TraitRef, TypeExpr, TypeParam,
};
use saga_typechecker::arm_run::{ArmFinding, ArmStage};
use saga_typechecker::checker::{Checker, PendingConstraint, RoutedOrigin};
use saga_typechecker::clause_run::{ClauseFinding, ClauseStage};
use saga_typechecker::constraints::{Action, Solver};
use saga_typechecker::definitions::{plan_definitions, DefinitionStep};
use saga_typechecker::diagnostics::{Diagnostic, Severity};
use saga_typechecker::effect_decls::OpParts;
use saga_typechecker::effects::{check_effects_via_row, BareEffectOpResolution, HandlerUse};
use saga_typechecker::fun_clauses::{
    annotation_mismatch, check_clause, clause_can_fail, unguarded_before, Coverage, FunBody,
};
use saga_typechecker::fun_types::{
    function_type_with_innermost_effects, innermost_effect_row,
};
use saga_typechecker::fun_schemes::{FunContext, GenericUse};
use saga_typechecker::handlers::HandlerParts;
use saga_typechecker::impls::{ImplHead, ImplParts, MethodBody};
use saga_typechecker::infos::{EffectDefInfo, EffectOpSig, ImplInfo, ModuleExports, TraitInfo};
use saga_typechecker::method_run::{MethodFinding, MethodStage};
use saga_typechecker::param_text::{list_params, show_params};
use saga_typechecker::program::{next_body, BodyStep, ProgramPass, ProgramRun};
use saga_typechecker::row_join::{
    bind_shared_tail, join_branch_types, join_effect_rows, plan_branch_join, plan_row_join, prewiden_shared_rows,
    shared_tail_positions, BranchJoin,
};
use saga_typechecker::scheme_run::{SchemeFinding, SchemeStage};
use saga_typechecker::schemes::Scheme;
use saga_typechecker::subst::Substitution;
use saga_typechecker::table::Table;
use saga_typechecker::token::Span;
use saga_typechecker::traits::MethodSig;
use saga_typechecker::type_decls::TypedVariant;
use saga_typechecker::types::{EffectEntry, EffectRow, Type};
use saga_typechecker::values::Dup;

fn at(start: usize) -> Span {
    Span { start, end: start + 1 }
}

fn strings(names: &[&str]) -> Vec<String> {
    names.iter().map(|n| n.to_string()).collect()
}

fn scheme(ty: Type) -> Scheme {
    Scheme { forall: vec![], constraints: vec![], ty }
}

fn con(name: &str, args: Vec<Type>) -> Type {
    Type::Con(name.to_string(), args)
}

fn effects(names: &[&str]) -> EffectRow {
    EffectRow::closed(names.iter().map(|n| EffectEntry::unnamed(n.to_string(), vec![])).collect())
}

fn in_module(name: &str) -> Checker {
    let mut c = Checker::new();
    c.current_module = Some(name.to_string());
    c
}

fn error(message: &str) -> Diagnostic {
    Diagnostic::error_at(at(1), message.to_string())
}

fn messages(ds: &[Diagnostic]) -> Vec<&str> {
    ds.iter().map(|d| d.message.as_str()).collect()
}

fn star(name: &str) -> TypeParam {
    TypeParam { name: name.to_string(), kind: Kind::Star }
}

// What is built in.

#[test]
fn a_new_checker_knows_what_is_built_in() {
    let c = Checker::new();
    let sub = Substitution::new();
    let shown = |name: &str| c.env.get(name).unwrap().display_with_constraints(&sub);
    assert_eq!(shown("panic"), "String -> a");
    assert_eq!(shown("todo"), "Unit -> a");
    let ctor = |name: &str| c.constructors.named(name).unwrap().display_with_constraints(&sub);
    assert_eq!(ctor("Nil"), "List a");
    assert_eq!(ctor("Cons"), "a -> List a -> List a");
    assert_eq!(ctor("True"), "Bool");
    assert_eq!(c.type_arity.named("List"), Some(&1));
    assert_eq!(c.type_arity.named("Unit"), Some(&0));
    assert_eq!(
        *c.adt_variants.named("Bool").unwrap(),
        vec![("True".to_string(), 0), ("False".to_string(), 0)]
    );
    assert!(c.trait_state.traits.has_name("Semigroup"));
    let dict = c.trait_state.impls.get(&("Eq".to_string(), vec![], "Dict".to_string())).unwrap();
    assert_eq!(dict.param_constraints, vec![("Eq".to_string(), 0), ("Eq".to_string(), 1)]);
    assert_eq!(c.next_var, 4);
}

// Types.

#[test]
fn type_definitions_register_their_constructors() {
    let mut c = in_module("M");
    let vars = c.fresh_param_vars(&vec![star("a")]);
    let a = vars[0].1;
    let variants = vec![
        TypedVariant { name: "Leaf".to_string(), fields: vec![], id: NodeId(5), span: at(5) },
        TypedVariant {
            name: "Node".to_string(),
            fields: vec![Type::Var(a), con("M.Tree", vec![Type::Var(a)])],
            id: NodeId(6),
            span: at(6),
        },
    ];
    c.register_type_def("Tree", &vars, &variants);
    let sub = Substitution::new();
    let node = c.constructors.named("M.Node").unwrap();
    assert_eq!(node.display_with_constraints(&sub), "a -> Tree a -> Tree a");
    assert!(c.constructors.named("Node").is_some());
    assert_eq!(
        *c.adt_variants.named("M.Tree").unwrap(),
        vec![("M.Leaf".to_string(), 0), ("M.Node".to_string(), 2)]
    );
}

#[test]
fn aliases_declare_all_their_variables() {
    let mut c = in_module("M");
    let mut vars = c.fresh_param_vars(&vec![star("a")]);
    vars.push(("b".to_string(), 50));
    let e = c
        .register_type_alias("Pair", &vec![star("a")], &vars, Type::Var(50), at(7), at(8))
        .unwrap_err();
    assert_eq!(
        e.message,
        "type alias `Pair` body references undeclared type variable: `b`. Add it to the alias's parameter list."
    );
    assert_eq!(e.span, Some(at(7)));
    vars.pop();
    let r = c.register_type_alias("Same", &vec![star("a")], &vars, Type::Var(vars[0].1), at(7), at(8));
    assert!(r.is_ok());
    assert_eq!(c.type_aliases.named("M.Same").unwrap().param_vars, vec![vars[0].1]);
}

fn alias(name: &str, body: &str) -> Decl {
    Decl::TypeAlias {
        id: NodeId(1),
        doc: vec![],
        public: true,
        name: name.to_string(),
        name_span: at(2),
        type_params: vec![],
        body: TypeExpr::Named { id: NodeId(77), name: body.to_string(), span: at(3) },
        span: at(4),
    }
}

#[test]
fn aliases_must_not_speak_of_themselves() {
    let mut c = in_module("M");
    assert!(c.begin_aliases(&vec![alias("A", "B"), alias("B", "Int")]).is_ok());
    assert_eq!(c.type_arity.named("M.A"), Some(&0));
    let e = c.begin_aliases(&vec![alias("A", "A")]).unwrap_err();
    assert_eq!(e.message, "type alias `A` is recursive: A -> A");
}

#[test]
fn aliases_must_not_speak_of_themselves_in_the_effects_of_functions() {
    let named = |name: &str| TypeExpr::Named { id: NodeId(5), name: name.to_string(), span: at(3) };
    let function = |arg: &str| Decl::TypeAlias {
        id: NodeId(1),
        doc: vec![],
        public: true,
        name: "A".to_string(),
        name_span: at(2),
        type_params: vec![],
        body: TypeExpr::Arrow {
            id: NodeId(2),
            from: Box::new(named("Int")),
            to: Box::new(named("Int")),
            effects: vec![EffectRef {
                id: NodeId(3),
                name: "State".to_string(),
                type_args: vec![named("Int"), named(arg)],
                span: at(3),
            }],
            effect_row_var: vec![],
            span: at(3),
        },
        span: at(4),
    };
    let mut c = in_module("M");
    assert!(c.begin_aliases(&vec![function("B"), alias("B", "Int")]).is_ok());
    let e = c.begin_aliases(&vec![function("A")]).unwrap_err();
    assert_eq!(e.message, "type alias `A` is recursive: A -> A");
    let e = c.begin_aliases(&vec![function("B"), alias("B", "A")]).unwrap_err();
    assert_eq!(e.message, "type alias `A` is recursive: A -> B -> A");
}

// Traits and impls.

fn show_trait(c: &mut Checker) {
    let a = c.fresh_var();
    let sig = MethodSig {
        name: "show".to_string(),
        param_types: vec![Type::Var(a)],
        return_type: Type::string(),
        effect_row: EffectRow::empty(),
        vars: vec![("a".to_string(), a)],
    };
    c.register_trait_def("Show", &vec![star("a")], &vec![], &vec![sig]);
}

fn head(target: &str) -> ImplHead {
    ImplHead {
        trait_name: "M.Show".to_string(),
        arg_names: vec![],
        target_type: target.to_string(),
        resolved_target: format!("M.{}", target),
        span: at(9),
    }
}

fn impl_parts(target: &str) -> ImplParts {
    ImplParts {
        params: vec![],
        target: con(&format!("M.{}", target), vec![]),
        vars: vec![],
        trait_type_args: vec![],
        bound_args: vec![],
        introduced: vec![],
        app_args: vec![],
        app_introduced: vec![],
        declared: vec![],
    }
}

fn impl_method(name: &str, params: &[&str]) -> ImplMethod {
    ImplMethod {
        name: name.to_string(),
        params: params.iter().map(|p| var_pat(p)).collect(),
        body: Expr { id: NodeId(0), kind: ExprKind::Other, span: at(11) },
    }
}

/// Checks an impl whose bodies have some effects, and registers it.
fn implement(
    c: &mut Checker,
    head: &ImplHead,
    parts: ImplParts,
    methods: &[ImplMethod],
    used: &[&str],
    bounds: &Vec<TraitBound>,
) -> Result<(), Diagnostic> {
    let methods: Vec<ImplMethod> =
        methods.iter().map(|m| impl_method(&m.name, &vec!["x"; m.params.len()])).collect();
    let start = c.begin_impl(head, &parts, &methods, bounds, &vec![])?;
    let mut run = c.begin_methods(head, &parts, &start.methods, &methods);
    while run.stage != MethodStage::Done {
        let found = match run.stage {
            MethodStage::Failed => return Err(run.error.unwrap()),
            MethodStage::Body => MethodFinding::Body(MethodBody {
                mismatch: None,
                effects: strings(used),
                candidates: vec![],
            }),
            _ => MethodFinding::Fine,
        };
        c.advance_methods(&mut run, head, &parts, &start.methods, &methods, found);
    }
    c.register_impl(head, parts, start, run.effects, bounds)
}

fn methods_named(names: &[&str]) -> Vec<ImplMethod> {
    names.iter().map(|n| impl_method(n, &["x"])).collect()
}

fn implement_show(c: &mut Checker, target: &str, methods: &[&str], used: &[&str]) -> Result<(), Diagnostic> {
    implement(c, &head(target), impl_parts(target), &methods_named(methods), used, &vec![])
}

#[test]
fn registered_traits_are_found_by_name() {
    let mut c = in_module("M");
    show_trait(&mut c);
    let info = c.trait_state.traits.named("M.Show").unwrap();
    assert_eq!(info.type_params, strings(&["a"]));
    assert_eq!(info.methods[0].name, "show");
    assert_eq!(c.resolve_trait_name("M.Show"), Some("M.Show".to_string()));
    assert_eq!(c.resolve_trait_name("Nope"), None);
}

#[test]
fn an_impl_is_registered_once() {
    let mut c = in_module("M");
    show_trait(&mut c);
    assert!(implement_show(&mut c, "T", &["show"], &[]).is_ok());
    let key = ("M.Show".to_string(), vec![], "M.T".to_string());
    assert!(c.trait_state.impls.contains_key(&key));
    let e = implement_show(&mut c, "T", &["show"], &[]).unwrap_err();
    assert_eq!(
        e.message,
        "duplicate impl: M.Show is already implemented for T (previously defined elsewhere)"
    );
}

#[test]
fn impls_provide_just_the_methods_of_their_trait() {
    let mut c = in_module("M");
    show_trait(&mut c);
    let mut refused =
        |methods: &[&str]| implement_show(&mut c, "T", methods, &[]).unwrap_err().message;
    assert_eq!(refused(&[]), "impl M.Show for T is missing method 'show'");
    assert_eq!(refused(&["show", "show"]), "impl M.Show for T has duplicate method 'show'");
    assert_eq!(refused(&["show", "hide"]), "impl M.Show for T has method 'hide' not defined in trait");
    let mut other = head("T");
    other.trait_name = "M.Nope".to_string();
    let e = implement(&mut c, &other, impl_parts("T"), &[], &[], &vec![]).unwrap_err();
    assert_eq!(e.message, "impl for undefined trait: M.Nope");
}

#[test]
fn impl_targets_are_named_types() {
    let mut c = in_module("M");
    show_trait(&mut c);
    let mut parts = impl_parts("T");
    parts.target = Type::Var(0);
    let e = implement(&mut c, &head("T"), parts, &methods_named(&["show"]), &[], &vec![]).unwrap_err();
    assert_eq!(e.message, "impl target must be a named or tuple type");
}

#[test]
fn methods_have_no_effects_that_their_trait_forbids() {
    let mut c = in_module("M");
    show_trait(&mut c);
    let e = implement_show(&mut c, "T", &["show"], &["Std.Log.Log"]).unwrap_err();
    assert_eq!(e.span, Some(at(11)));
    assert!(e.message.contains("method 'show' uses effect"));
    assert!(e.message.contains("that trait method 'show'"));
}

#[test]
fn bounds_of_impls_speak_of_variables_that_earlier_bounds_introduce() {
    let bound = |var: &str, name: &str, type_args: Vec<TypeExpr>| TraitBound {
        type_var: var.to_string(),
        traits: vec![TraitRef { id: NodeId(70), name: name.to_string(), type_args, span: at(12) }],
    };
    let variable = |name: &str| TypeExpr::Var { id: NodeId(71), name: name.to_string(), span: at(12) };
    let parts = || {
        let mut parts = impl_parts("Box");
        parts.target = con("M.Box", vec![Type::Var(50)]);
        parts.vars = vec![("a".to_string(), 50)];
        parts.bound_args = vec![vec![vec![Type::Var(51)]], vec![vec![]]];
        parts.introduced = vec![vec![("b".to_string(), 51)], vec![]];
        parts
    };
    let first = bound("a", "M.Into", vec![variable("b")]);
    let second = bound("b", "M.Show", vec![]);
    let mut c = in_module("M");
    show_trait(&mut c);
    let show = methods_named(&["show"]);
    assert!(implement(&mut c, &head("Box"), parts(), &show, &[], &vec![first, second]).is_ok());
    let key = ("M.Show".to_string(), vec![], "M.Box".to_string());
    let info = c.trait_state.impls.get(&key).unwrap();
    assert_eq!(info.target_type_param_ids, vec![50]);
    assert_eq!(info.param_constraints_by_var, vec![("M.Show".to_string(), 51)]);
    assert_eq!(c.trait_state.where_bounds.get(&51), Some(&strings(&["M.Show"])));
    let mut c = in_module("M");
    show_trait(&mut c);
    let early = bound("b", "M.Show", vec![]);
    let mut unknown = parts();
    unknown.bound_args = vec![vec![vec![]]];
    unknown.introduced = vec![vec![]];
    let e = implement(&mut c, &head("Box"), unknown, &show, &[], &vec![early]).unwrap_err();
    assert_eq!(e.message, "where clause references unknown type variable 'b' (params: [])");
}

#[test]
fn impls_are_of_what_their_names_stand_for() {
    let mut c = in_module("M");
    c.resolution.impl_traits.insert(NodeId(90), "M.Show".to_string());
    c.resolution.impl_targets.insert(NodeId(90), "M.T".to_string());
    let found = c.impl_head(&impl_decl()).unwrap();
    assert_eq!(found.trait_name, "M.Show");
    assert_eq!(found.target_type, "T");
    assert_eq!(found.resolved_target, "M.T");
    assert_eq!(found.span, at(93));
    assert!(c.impl_head(&import("A")).is_none());
    c.next_var = 60;
    let (target, vars) = c.plain_target("M.T", &vec![star("a"), star("b")]);
    assert_eq!(target.display(), "T ?60 ?61");
    assert_eq!(vars, vec![("a".to_string(), 60), ("b".to_string(), 61)]);
    assert_eq!(c.next_var, 62);
    c.resolution.effect_refs.insert(NodeId(60), "A.Log".to_string());
    assert_eq!(c.declared_effect_names(&vec![effect_ref("Log")]), strings(&["A.Log"]));
}

#[test]
fn methods_of_impls_are_checked_one_by_one() {
    let mut c = in_module("M");
    show_trait(&mut c);
    let own = scheme(Type::unit());
    c.env.insert("show".to_string(), own);
    let methods = methods_named(&["show"]);
    let (head, mut parts) = (head("T"), impl_parts("T"));
    parts.params = vec![star("a")];
    parts.vars = vec![("a".to_string(), 60)];
    let start = c.begin_impl(&head, &parts, &methods, &vec![], &vec![]).unwrap();
    assert_eq!(c.outer_named_type_vars.named("a"), Some(&60));
    let mut run = c.begin_methods(&head, &parts, &start.methods, &methods);
    assert_eq!(run.stage, MethodStage::Param(0));
    assert_eq!(run.expected.display(), "T");
    assert_eq!(c.env.get("show").unwrap().constraints.len(), 1);
    c.advance_methods(&mut run, &head, &parts, &start.methods, &methods, MethodFinding::Fine);
    assert_eq!(run.stage, MethodStage::Body);
    assert_eq!(run.remaining.display(), "String");
    let wrong = MethodBody { mismatch: Some("why".to_string()), effects: vec![], candidates: vec![] };
    c.advance_methods(&mut run, &head, &parts, &start.methods, &methods, MethodFinding::Body(wrong));
    assert_eq!(run.stage, MethodStage::Failed);
    assert_eq!(run.error.unwrap().message, "in impl M.Show for T, method 'show': why");
}

#[test]
fn methods_leave_nothing_bound() {
    let mut c = in_module("M");
    show_trait(&mut c);
    c.env.insert("show".to_string(), scheme(Type::unit()));
    implement_show(&mut c, "T", &["show"], &[]).unwrap();
    assert_eq!(c.env.get("show").unwrap().ty.display(), "Unit");
    assert_eq!(c.outer_named_type_vars.len(), 0);
    let key = ("M.Show".to_string(), vec![], "M.T".to_string());
    assert_eq!(c.trait_state.impls.get(&key).unwrap().method_effects.named("show"), Some(&vec![]));
}

#[test]
fn methods_have_no_more_parameters_than_their_type() {
    let mut c = in_module("M");
    show_trait(&mut c);
    let methods = vec![impl_method("show", &["x", "y"])];
    let e = implement(&mut c, &head("T"), impl_parts("T"), &methods, &[], &vec![]).unwrap_err();
    assert_eq!(
        e.message,
        "in impl M.Show for T, method 'show' binds 2 parameter(s) but the trait method's type does not accept that many"
    );
}

fn bare_trait(supertraits: &[&str]) -> TraitInfo {
    TraitInfo { type_params: strings(&["a"]), supertraits: strings(supertraits), methods: vec![] }
}

fn bare_impl() -> ImplInfo {
    ImplInfo {
        param_constraints: vec![],
        param_constraints_by_var: vec![],
        param_constraints_by_var_with_args: vec![],
        target_pattern: None,
        trait_type_args: vec![],
        target_type_param_ids: vec![],
        span: Some(at(21)),
        method_effects: Table::new(),
    }
}

#[test]
fn traits_imply_their_supertraits() {
    let mut c = Checker::new();
    c.trait_state.traits.insert("M.Eq".to_string(), bare_trait(&[]));
    c.trait_state.traits.insert("M.Ord".to_string(), bare_trait(&["M.Eq"]));
    c.trait_state.traits.insert("M.Num".to_string(), bare_trait(&["M.Ord"]));
    assert!(c.trait_implies_canonical("M.Num", "M.Num"));
    assert!(c.trait_implies_canonical("M.Num", "M.Eq"));
    assert!(!c.trait_implies_canonical("M.Eq", "M.Ord"));
    assert_eq!(c.covering_trait(&strings(&["M.Show", "M.Ord"]), "M.Eq"), Some("M.Ord".to_string()));
    assert_eq!(c.covering_trait(&strings(&["M.Show"]), "M.Eq"), None);
}

#[test]
fn impls_need_those_of_the_supertraits() {
    let mut c = Checker::new();
    c.trait_state.traits.insert("M.Eq".to_string(), bare_trait(&[]));
    c.trait_state.traits.insert("M.Ord".to_string(), bare_trait(&["M.Eq"]));
    c.trait_state.impls.insert(("M.Ord".to_string(), vec![], "M.T".to_string()), bare_impl());
    let e = c.check_supertrait_impls().unwrap_err();
    assert_eq!(e.message, "impl M.Ord for M.T requires impl M.Eq for M.T (supertrait)");
    assert_eq!(e.span, Some(at(21)));
    c.trait_state.impls.insert(("M.Eq".to_string(), vec![], "M.T".to_string()), bare_impl());
    assert!(c.check_supertrait_impls().is_ok());
}

#[test]
fn tuples_have_supertraits_from_tuples_of_every_arity() {
    let mut c = Checker::new();
    c.trait_state.traits.insert("M.Eq".to_string(), bare_trait(&[]));
    c.trait_state.traits.insert("M.Ord".to_string(), bare_trait(&["M.Eq"]));
    let key = |of: &str, target: &str| (of.to_string(), vec![], target.to_string());
    c.trait_state.impls.insert(key("M.Eq", "Std.Base.Tuple"), bare_impl());
    for arity in [0, 2, 9, 10, 37, 120] {
        c.trait_state.impls.insert(key("M.Ord", &format!("Std.Base.Tuple.{}", arity)), bare_impl());
        assert!(c.check_supertrait_impls().is_ok());
    }
    for other in ["Std.Base.Tuple.x", "Std.Base.Tuple.", "Std.Base.Pair.2"] {
        c.trait_state.impls.insert(key("M.Ord", other), bare_impl());
        let e = c.check_supertrait_impls().unwrap_err();
        assert_eq!(
            e.message,
            format!("impl M.Ord for {} requires impl M.Eq for {} (supertrait)", other, other)
        );
        c.trait_state.impls.remove(&key("M.Ord", other));
    }
}

#[test]
fn where_clauses_of_impls_name_known_traits_with_their_arguments() {
    let mut c = in_module("M");
    show_trait(&mut c);
    let app = |name: &str| TraitApp { trait_name: name.to_string(), type_args: vec![], span: at(8) };
    let mut parts = impl_parts("T");
    parts.app_args = vec![vec![]];
    parts.app_introduced = vec![vec![]];
    let methods = methods_named(&["show"]);
    let e = c.begin_impl(&head("T"), &parts, &methods, &vec![], &vec![app("Round")]).err().unwrap();
    assert_eq!(e.message, "unknown trait 'Round'");
    let e = c.begin_impl(&head("T"), &parts, &methods, &vec![], &vec![app("Show")]).err().unwrap();
    assert_eq!(e.message, "trait M.Show expects 1 type argument(s), but 0 were provided");
    assert_eq!(e.span, Some(at(8)));
}

#[test]
fn bounds_of_impls_speak_of_variables_of_the_impl() {
    let mut c = in_module("M");
    show_trait(&mut c);
    let bound = TraitBound {
        type_var: "z".to_string(),
        traits: vec![TraitRef { id: NodeId(4), name: "Show".to_string(), type_args: vec![], span: at(6) }],
    };
    let params = || vec![star("a"), TypeParam { name: "n\"".to_string(), kind: Kind::Symbol }];
    let mut parts = impl_parts("T");
    parts.params = params();
    parts.bound_args = vec![vec![vec![]]];
    parts.introduced = vec![vec![]];
    let e = implement(&mut c, &head("T"), parts, &methods_named(&["show"]), &[], &vec![bound]).unwrap_err();
    assert_eq!(
        e.message,
        "where clause references unknown type variable 'z' (params: \
         [TypeParam { name: \"a\", kind: Star }, TypeParam { name: \"n\\\"\", kind: Symbol }])"
    );
    assert_eq!(show_params(&params()), format!("{:?}", params()));
    assert_eq!(show_params(&vec![]), "[]");
    assert_eq!(
        list_params(&strings(&["\"b\""]), &vec![Kind::Star]),
        "[TypeParam { name: \"b\", kind: Star }]"
    );
}

// Constraints.

fn pending(trait_name: &str, ty: Type, node: u32) -> PendingConstraint {
    PendingConstraint {
        trait_name: trait_name.to_string(),
        trait_type_args: vec![],
        ty,
        span: at(31),
        node_id: NodeId(node),
    }
}

fn solve(c: &mut Checker) -> Result<(), Diagnostic> {
    let mut solver = Solver::new(c);
    for _ in 0..100 {
        match solver.step(c) {
            Action::Step => {}
            Action::Unify(..) => panic!("nothing to unify here"),
            Action::Done => return Ok(()),
            Action::Failed(d) => return Err(d),
        }
    }
    panic!("no end")
}

#[test]
fn constraints_hold_where_there_is_an_impl() {
    let mut c = Checker::new();
    c.trait_state.traits.insert("M.Show".to_string(), bare_trait(&[]));
    c.trait_state.impls.insert(("M.Show".to_string(), vec![], "M.T".to_string()), bare_impl());
    c.trait_state.pending_constraints.push(pending("M.Show", con("M.T", vec![]), 8));
    assert!(solve(&mut c).is_ok());
    assert_eq!(c.evidence.len(), 1);
    assert_eq!(c.evidence[0].node_id, NodeId(8));
    assert_eq!(c.evidence[0].resolved_type.as_ref().unwrap().0, "M.T");
}

#[test]
fn constraints_fail_where_there_is_no_impl() {
    let mut c = Checker::new();
    c.trait_state.traits.insert("M.Show".to_string(), bare_trait(&[]));
    c.trait_state.pending_constraints.push(pending("M.Show", con("M.T", vec![]), 8));
    let e = solve(&mut c).unwrap_err();
    assert!(e.message.starts_with("no impl of Show for M.T"));
    assert_eq!(e.span, Some(at(31)));
    let mut c = Checker::new();
    c.trait_state.pending_constraints.push(pending("M.Show", Type::arrow(Type::unit(), Type::unit()), 8));
    assert_eq!(solve(&mut c).unwrap_err().message, "no impl of Show for function type");
    let mut c = Checker::new();
    c.trait_state.pending_constraints.push(pending("M.Show", Type::Record(vec![]), 8));
    assert_eq!(solve(&mut c).unwrap_err().message, "no impl of Show for anonymous record type");
}

#[test]
fn unsolved_variables_are_ambiguous() {
    let mut c = Checker::new();
    let v = c.fresh_var();
    c.trait_state.pending_constraints.push(pending("M.Show", Type::Var(v), 8));
    assert_eq!(
        solve(&mut c).unwrap_err().message,
        "ambiguous type variable requires Show. Add a type annotation to pin the unconstrained type variable"
    );
}

#[test]
fn settled_constraints_have_evidence_and_none_is_left() {
    let mut c = Checker::new();
    c.trait_state.traits.insert("M.Show".to_string(), bare_trait(&[]));
    c.trait_state.impls.insert(("M.Show".to_string(), vec![], "M.T".to_string()), bare_impl());
    let mut of_list = bare_impl();
    of_list.param_constraints = vec![("M.Show".to_string(), 0)];
    c.trait_state.impls.insert(("M.Show".to_string(), vec![], "M.List".to_string()), of_list);
    let t = || con("M.T", vec![]);
    c.trait_state.pending_constraints.push(pending("M.Show", con("M.List", vec![t()]), 1));
    c.trait_state.pending_constraints.push(pending("M.Show", Type::Error, 2));
    c.trait_state.pending_constraints.push(pending("M.Show", t(), 3));
    assert!(solve(&mut c).is_ok());
    assert!(c.trait_state.pending_constraints.is_empty());
    let seen: Vec<(NodeId, &str)> = c
        .evidence
        .iter()
        .map(|e| (e.node_id, e.resolved_type.as_ref().unwrap().0.as_str()))
        .collect();
    assert_eq!(seen, vec![(NodeId(1), "M.List"), (NodeId(3), "M.T"), (NodeId(1), "M.T")]);
}

#[test]
fn bounds_settle_constraints_on_their_variables() {
    let mut c = Checker::new();
    let v = c.fresh_var();
    c.trait_state.traits.insert("M.Show".to_string(), bare_trait(&[]));
    c.trait_state.where_bounds.insert(v, strings(&["M.Show"]));
    c.trait_state.where_bound_var_names.insert(v, "a".to_string());
    c.trait_state.pending_constraints.push(pending("M.Show", Type::Var(v), 8));
    assert!(solve(&mut c).is_ok());
    assert_eq!(c.evidence[0].type_var_name, Some("a".to_string()));
}

#[test]
fn derived_impls_explain_their_constraints() {
    let mut c = Checker::new();
    c.trait_state.pending_constraints.push(pending("M.Show", con("M.T", vec![]), 8));
    c.trait_state.pending_constraints.push(pending("M.Show", con("M.U", vec![]), 9));
    let origin = RoutedOrigin {
        trait_name: "Show".to_string(),
        target_type: "Pair".to_string(),
        deriving_span: at(40),
    };
    c.route_new_constraints(1, &origin);
    assert!(c.trait_state.routed_constraint_origins.get(&NodeId(8)).is_none());
    assert_eq!(c.trait_state.routed_constraint_origins.get(&NodeId(9)).unwrap().target_type, "Pair");
}

// Effects.

fn op(name: &str, effect: &str) -> EffectOpSig {
    EffectOpSig {
        name: name.to_string(),
        effect_name: effect.to_string(),
        params: vec![("text".to_string(), Type::string())],
        return_type: Type::unit(),
        needs: EffectRow::empty(),
        constraints: vec![],
    }
}

fn with_effect(c: &mut Checker, module: &str, name: &str, ops: &[&str]) {
    let canonical = format!("{}.{}", module, name);
    c.effects.insert(
        canonical.clone(),
        EffectDefInfo {
            type_params: vec![],
            ops: ops.iter().map(|o| op(o, name)).collect(),
            op_spans: Table::new(),
            source_module: Some(module.to_string()),
        },
    );
    c.scope_map.effects.insert(name.to_string(), canonical.clone());
    c.scope_map.register_effect_ops(&canonical, &strings(ops));
}

#[test]
fn operations_are_found_in_their_effects() {
    let mut c = in_module("M");
    with_effect(&mut c, "A", "Log", &["log"]);
    assert_eq!(c.canonical_effect_name("Log"), "A.Log");
    assert_eq!(c.effect_for_op("log", None), Some("A.Log".to_string()));
    let sig = c.lookup_effect_op("log", None, at(1)).unwrap();
    assert_eq!(sig.name, "log");
    let says = |c: &mut Checker, o: &str, q: Option<&str>| c.lookup_effect_op(o, q, at(1)).unwrap_err().message;
    assert_eq!(says(&mut c, "nope", None), "undefined effect operation: nope");
    assert_eq!(says(&mut c, "log", Some("Nope")), "undefined effect: Nope");
    assert_eq!(says(&mut c, "nope", Some("Log")), "effect 'Log' has no operation 'nope'");
}

#[test]
fn uses_of_operations_have_variables_of_their_own() {
    let mut c = in_module("M");
    with_effect(&mut c, "A", "Store", &["set"]);
    let mut sig = op("set", "Store");
    sig.params = vec![("value".to_string(), Type::Var(40)), ("times".to_string(), Type::Var(41))];
    sig.constraints = vec![("M.Show".to_string(), 41, vec![])];
    c.trait_state.where_bound_var_names.insert(41, "a".to_string());
    c.next_var = 50;
    let one = c.instantiate_effect_op("A.Store", &sig, &vec![40]);
    let two = c.instantiate_effect_op("A.Store", &sig, &vec![40]);
    assert_eq!(one.params[0].1.display(), two.params[0].1.display());
    assert_ne!(one.params[1].1.display(), two.params[1].1.display());
    assert_eq!(one.effect_name, "A.Store");
    assert_eq!(format!("?{}", two.constraints[0].1), two.params[1].1.display());
    let names = &c.trait_state.where_bound_var_names;
    assert_eq!(names.get(&one.constraints[0].1), Some(&"a".to_string()));
    assert_eq!(names.get(&41), Some(&"a".to_string()));
    assert_eq!(names.len(), 3);
}

#[test]
fn operations_of_two_effects_are_ambiguous_unless_one_is_local() {
    let mut c = in_module("M");
    with_effect(&mut c, "B", "Trace", &["log"]);
    with_effect(&mut c, "A", "Log", &["log"]);
    assert_eq!(
        c.lookup_effect_op("log", None, at(1)).unwrap_err().message,
        "ambiguous effect operation 'log': found in [A.Log, B.Trace]; qualify the call (e.g. `A.Log.log!`)"
    );
    with_effect(&mut c, "M", "Own", &["log"]);
    assert!(matches!(c.resolve_bare_effect_op("log"), BareEffectOpResolution::Found(e) if e == "M.Own"));
}

#[test]
fn bodies_have_no_effects_that_are_not_declared() {
    let sub = Substitution::new();
    let says = |body: &EffectRow, declared: &EffectRow, label: &str| {
        check_effects_via_row(&sub, body, declared, label, at(1)).map_err(|d| d.message)
    };
    let body = effects(&["Std.Log.Log", "M.Fail"]);
    assert!(says(&body, &effects(&["M.Fail", "Std.Log.Log"]), "function 'f'").is_ok());
    assert_eq!(
        says(&body, &EffectRow::empty(), "function 'f'").unwrap_err(),
        "function 'f' uses effects {Fail, Log} but has no 'needs' declaration"
    );
    assert_eq!(
        says(&body, &effects(&["M.Fail"]), "function 'f'").unwrap_err(),
        "function 'f' uses effects {Log} not declared in its 'needs' clause"
    );
    assert!(says(&body, &EffectRow::empty(), "function 'main'").unwrap_err().starts_with("`main` uses effects {Fail, Log} but no handler"));
    let open = EffectRow { effects: vec![], tails: vec![Type::Var(3)] };
    assert!(says(&body, &open, "function 'f'").is_ok());
}

fn effect_ref(name: &str) -> EffectRef {
    EffectRef { id: NodeId(60), name: name.to_string(), type_args: vec![], span: at(61) }
}

#[test]
fn effect_arguments_have_the_kinds_of_the_parameters() {
    let mut c = in_module("M");
    let p = c.fresh_var_of_kind(Kind::Symbol);
    with_effect(&mut c, "M", "Tag", &[]);
    let mut info = c.effects.named("M.Tag").unwrap().dup();
    info.type_params = vec![p];
    c.effects.insert("M.Tag".to_string(), info);
    let arg = || TypeExpr::Named { id: NodeId(62), name: "Int".to_string(), span: at(63) };
    let mut r = effect_ref("M.Tag");
    r.type_args = vec![arg(), arg()];
    assert_eq!(c.effect_arg_kinds(&r), vec![Kind::Symbol, Kind::Star]);
    r.name = "M.Nope".to_string();
    assert_eq!(c.effect_arg_kinds(&r), vec![Kind::Star, Kind::Star]);
}

#[test]
fn needs_clauses_become_rows() {
    let mut c = in_module("M");
    with_effect(&mut c, "M", "State", &[]);
    let mut vars = vec![("e".to_string(), 90)];
    let tails = vec![("e".to_string(), at(1)), ("f".to_string(), at(2))];
    let refs = vec![effect_ref("M.State"), effect_ref("M.State")];
    let fresh = c.next_var;
    let row = c
        .build_effect_row_from_refs(&refs, &vec![vec![Type::int_type()], vec![Type::int_type()]], &tails, &mut vars)
        .unwrap();
    assert_eq!(row.effects.len(), 1);
    assert_eq!(row.tail_var_ids(), vec![90, fresh]);
    assert_eq!(vars[1], ("f".to_string(), fresh));
    let e = c
        .build_effect_row_from_refs(&refs, &vec![vec![Type::int_type()], vec![Type::string()]], &vec![], &mut vars)
        .unwrap_err();
    assert_eq!((e.previous.display(), e.current.display()), ("State Int".to_string(), "State String".to_string()));
    let d = e.describe(&e.previous.display(), &e.current.display());
    assert_eq!(
        d.message,
        "conflicting effect requirements in `needs`: `State Int` and `State String` both refer to `State`, but with different type arguments"
    );
    assert_eq!(d.span, Some(refs[1].span));
    assert!(e.describe("State Int", "State a").message.contains("`State Int` and `State a` both"));
    let r = c.build_effect_row_from_refs(&vec![effect_ref("Nope")], &vec![vec![]], &vec![], &mut vars);
    assert!(r.is_ok());
    assert_eq!(messages(&c.collected_diagnostics), vec!["undefined effect: Nope"]);
}

#[test]
fn effects_of_functions_are_on_the_innermost_arrow() {
    let ty = function_type_with_innermost_effects(&vec![Type::int_type(), Type::bool()], Type::unit(), effects(&["Log"]));
    assert_eq!(ty.display(), "Int -> Bool -> Unit needs {Log}");
    assert_eq!(innermost_effect_row(&ty).unwrap().effects[0].name, "Log");
    assert!(innermost_effect_row(&Type::unit()).is_none());
    assert_eq!(function_type_with_innermost_effects(&vec![], Type::unit(), effects(&["Log"])).display(), "Unit");
}

#[test]
fn joined_rows_name_every_effect() {
    let mut sub = Substitution::new();
    let rows = vec![
        EffectRow { effects: effects(&["Log"]).effects, tails: vec![Type::Var(1)] },
        effects(&["Fail", "Log"]),
    ];
    let join = plan_row_join(&sub, &rows);
    assert_eq!(join.union.len(), 2);
    let row = join_effect_rows(&mut sub, &join, 9, at(1)).unwrap();
    let names: Vec<&str> = row.effects.iter().map(|e| e.name.as_str()).collect();
    assert_eq!(names, vec!["Log", "Fail"]);
}

#[test]
fn rows_with_one_tail_become_the_joined_row() {
    let mut sub = Substitution::new();
    let open = |name: &str, tail: u32| EffectRow {
        effects: effects(&[name]).effects,
        tails: vec![Type::Var(tail)],
    };
    let rows = vec![open("Log", 1), open("Fail", 1), open("Ask", 2), effects(&["Log"])];
    let join = plan_row_join(&sub, &rows);
    assert!(join.pairs.is_empty());
    let joined = join_effect_rows(&mut sub, &join, 9, at(1)).unwrap();
    assert_eq!(joined.tail_var_ids(), vec![9]);
    let names = |row: &EffectRow| {
        let mut names: Vec<String> = row.effects.iter().map(|e| e.name.clone()).collect();
        names.sort();
        names
    };
    assert_eq!(names(&joined), strings(&["Ask", "Fail", "Log"]));
    for row in &rows[..3] {
        let now = sub.apply_effect_row(row);
        assert_eq!(names(&now), names(&joined));
        assert_eq!(now.tail_var_ids(), vec![9]);
    }
    assert!(!sub.apply_effect_row(&rows[3]).is_open());
}

#[test]
fn a_join_that_fails_keeps_what_was_bound() {
    let mut sub = Substitution::new();
    let open = |name: &str, tail: u32| EffectRow {
        effects: effects(&[name]).effects,
        tails: vec![Type::Var(tail)],
    };
    let rows = vec![open("Log", 1), open("Fail", 2)];
    let join = plan_row_join(&sub, &rows);
    let e = join_effect_rows(&mut sub, &join, 2, at(6)).unwrap_err();
    assert_eq!(e.message, "infinite effect row: ?2 occurs in its own binding");
    assert_eq!(e.span, Some(at(6)));
    let now = sub.apply_effect_row(&rows[0]);
    assert_eq!(now.effects.len(), 2);
    assert_eq!(now.tail_var_ids(), vec![2]);
}

#[test]
fn effects_are_declared_in_two_passes() {
    let mut c = in_module("M");
    c.register_effect_stub("Log", &vec![star("a")]);
    let info = c.effects.named("M.Log").unwrap();
    assert_eq!(info.type_params.len(), 1);
    assert!(info.ops.is_empty());
    let unit = || TypeExpr::Named { id: NodeId(0), name: "Unit".to_string(), span: at(1) };
    let operation = EffectOp {
        name: "log".to_string(),
        params: vec![("text".to_string(), unit())],
        return_type: unit(),
        effects: vec![],
        effect_row_var: vec![],
        where_clause: vec![],
        span: at(70),
    };
    let parts = OpParts {
        params: vec![("text".to_string(), Type::string())],
        return_type: Type::unit(),
        needs_args: vec![],
        vars: vec![],
        introduced: vec![],
        bound_args: vec![],
        complaints: vec![],
    };
    c.register_effect_ops("Log", &vec![operation], &vec![parts]).unwrap();
    let info = c.effects.named("M.Log").unwrap();
    assert_eq!(info.ops[0].name, "log");
    assert_eq!(info.op_spans.named("log"), Some(&at(70)));
}

// Handlers.

fn nothing() -> Expr {
    Expr { id: NodeId(0), kind: ExprKind::Other, span: at(0) }
}

fn handler_body(arms: &[&str], needs: Vec<EffectRef>) -> HandlerBody {
    HandlerBody {
        effects: vec![effect_ref("A.Log")],
        needs,
        where_clause: vec![],
        arms: arms
            .iter()
            .map(|a| HandlerArm {
                op_name: a.to_string(),
                params: vec![],
                body: nothing(),
                finally_block: None,
                span: at(80),
            })
            .collect(),
        return_clause: None,
    }
}

fn handle(c: &mut Checker, body: &HandlerBody, used: EffectRow) -> Result<(), Diagnostic> {
    let parts = HandlerParts {
        name: "quiet".to_string(),
        id: NodeId(81),
        name_span: at(82),
        span: at(83),
        type_args: vec![vec![]],
        vars: vec![],
        complaints: vec![],
        plain_args: vec![vec![]],
    };
    let outer = c.outer_named_type_vars.dup();
    let (mapping, answer) = c.begin_handler(&parts, body);
    let needs = EffectRow::empty();
    let mut run = c.begin_arms(body, mapping, answer, needs);
    while run.stage != ArmStage::Done {
        let found = match run.stage {
            ArmStage::Failed => return Err(run.error.unwrap()),
            ArmStage::Body | ArmStage::ReturnBody => ArmFinding::Typed(Type::unit(), None),
            ArmStage::Finally => ArmFinding::Effects(used.dup()),
            _ => ArmFinding::Fine,
        };
        c.advance_arms(&mut run, body, found);
    }
    c.register_handler(&parts, body, run.finish(used, outer))
}

#[test]
fn arms_resume_with_what_their_operation_gives_back() {
    let mut c = in_module("M");
    with_effect(&mut c, "A", "Log", &["log"]);
    let mut body = handler_body(&["log"], vec![]);
    body.arms[0].params = vec![var_pat("x"), var_pat("y")];
    let first = c.next_var;
    let mut run = c.begin_arms(&body, Table::new(), 40, EffectRow::empty());
    assert_eq!(run.stage, ArmStage::Param(0));
    assert_eq!(run.expected.display(), "String");
    assert_eq!(c.resume_type.as_ref().unwrap().display(), "Unit");
    assert_eq!(c.resume_return_type.as_ref().unwrap().display(), "?40");
    c.env.insert("x".to_string(), scheme(Type::string()));
    c.advance_arms(&mut run, &body, ArmFinding::Fine);
    assert_eq!(run.stage, ArmStage::Param(1));
    assert_eq!(run.expected.display(), format!("?{}", first));
    c.advance_arms(&mut run, &body, ArmFinding::Fine);
    assert_eq!(run.stage, ArmStage::Body);
    let wrong = Diagnostic::error("not the answer".to_string());
    c.advance_arms(&mut run, &body, ArmFinding::Typed(Type::unit(), Some(wrong)));
    assert_eq!(run.stage, ArmStage::Done);
    assert_eq!(messages(&c.collected_diagnostics), vec!["not the answer"]);
    assert_eq!(c.collected_diagnostics[0].span, Some(at(80)));
    assert!(c.env.get("x").is_none());
    assert!(c.resume_type.is_none() && c.resume_return_type.is_none());
}

#[test]
fn what_arms_do_in_the_end_has_declared_effects_only() {
    let mut c = in_module("M");
    with_effect(&mut c, "A", "Log", &["log"]);
    let mut body = handler_body(&["log"], vec![effect_ref("A.Log")]);
    body.arms[0].finally_block = Some(nothing());
    handle(&mut c, &body, effects(&["A.Log"])).unwrap();
    assert_eq!(
        messages(&c.collected_diagnostics),
        vec!["finally block for 'log' uses effects {Log} but has no 'needs' declaration"]
    );
}

#[test]
fn return_clauses_give_the_type_of_the_handled_value() {
    let mut c = in_module("M");
    with_effect(&mut c, "A", "Log", &["log"]);
    let mut body = handler_body(&["log"], vec![]);
    body.return_clause = Some(HandlerArm {
        op_name: "return".to_string(),
        params: vec![var_pat("x")],
        body: nothing(),
        finally_block: None,
        span: at(84),
    });
    handle(&mut c, &body, EffectRow::empty()).unwrap();
    let (param, result) = c.handlers.named("quiet").unwrap().return_type.as_ref().unwrap();
    assert!(matches!(param, Type::Var(_)));
    assert_eq!(result.display(), "Unit");
}

#[test]
fn handlers_are_registered_with_their_effects() {
    let mut c = in_module("M");
    with_effect(&mut c, "A", "Log", &["log"]);
    handle(&mut c, &handler_body(&["log"], vec![]), EffectRow::empty()).unwrap();
    let info = c.handlers.named("quiet").unwrap();
    assert_eq!(info.effects, strings(&["A.Log"]));
    assert_eq!(info.source_module, Some("M".to_string()));
    assert!(c.collected_diagnostics.is_empty());
    assert_eq!(c.env.get("quiet").unwrap().ty.display(), "Handler Log");
}

#[test]
fn handlers_handle_every_operation_and_no_other() {
    let mut c = in_module("M");
    with_effect(&mut c, "A", "Log", &["log", "flush"]);
    handle(&mut c, &handler_body(&["log"], vec![]), EffectRow::empty()).unwrap();
    assert_eq!(messages(&c.collected_diagnostics), vec!["handler 'quiet' is missing flush from effect 'A.Log'"]);
    let mut c = in_module("M");
    with_effect(&mut c, "A", "Log", &["log"]);
    let e = handle(&mut c, &handler_body(&["log", "log"], vec![]), EffectRow::empty()).unwrap_err();
    assert_eq!(e.message, "duplicate handler arm for operation 'log'");
    let mut c = in_module("M");
    with_effect(&mut c, "A", "Log", &["log"]);
    let e = handle(&mut c, &handler_body(&["shout"], vec![]), EffectRow::empty()).unwrap_err();
    assert!(e.message.starts_with("handler arm 'shout' is not an operation of "));
}

#[test]
fn handlers_declare_what_their_bodies_need() {
    let mut c = in_module("M");
    with_effect(&mut c, "A", "Log", &["log"]);
    let e = handle(&mut c, &handler_body(&["log"], vec![]), effects(&["A.Fail"])).unwrap_err();
    assert!(e.message.starts_with("handler 'quiet' uses effects {"));
    assert!(e.message.ends_with("} but has no 'needs' declaration"));
}

// Functions.

fn var_pat(name: &str) -> Pat {
    Pat::Var { id: NodeId(0), name: name.to_string(), span: at(0) }
}

#[test]
fn clauses_of_a_function_have_its_arity() {
    assert!(check_clause("f", 1, &vec![var_pat("x")], at(1)).is_ok());
    let e = check_clause("f", 2, &vec![var_pat("x")], at(1)).unwrap_err();
    assert_eq!(e.message, "clause for 'f' has 1 params, expected 2");
    assert_eq!(
        annotation_mismatch("f", at(1), "why").message,
        "type annotation mismatch for 'f': why"
    );
}

#[test]
fn clauses_are_checked_in_the_same_environment() {
    let mut c = in_module("M");
    let with_params = |id: u32, params: Vec<Pat>, guard: Option<Expr>| Decl::FunBinding {
        id: NodeId(id),
        name: "f".to_string(),
        name_span: at(id as usize),
        params,
        guard,
        body: nothing(),
        span: at(id as usize),
    };
    let program = vec![
        with_params(1, vec![var_pat("x")], Some(nothing())),
        with_params(2, vec![var_pat("y")], None),
    ];
    let mut run = c.begin_clauses(&program, "f", 0, 2);
    let mut seen = vec![];
    while run.stage != ClauseStage::Done {
        seen.push((run.at, run.stage));
        c.env.insert("x".to_string(), scheme(Type::unit()));
        c.advance_clauses(&mut run, &program, ClauseFinding::Fine);
    }
    let (pattern, guard, body) = (ClauseStage::Pattern(0), ClauseStage::Guard, ClauseStage::Body);
    assert_eq!(seen, vec![(0, pattern), (0, guard), (0, body), (1, pattern), (1, body)]);
    assert!(c.env.get("x").is_none());
    let mut run = c.begin_clauses(&program, "f", 0, 2);
    c.advance_clauses(&mut run, &program, ClauseFinding::Fine);
    c.advance_clauses(&mut run, &program, ClauseFinding::EffectCall(at(9)));
    assert_eq!(run.stage, ClauseStage::Failed);
    assert_eq!(run.error.unwrap().message, "Effect calls are not allowed in guard expressions");
    let uneven = vec![with_params(1, vec![], None), with_params(2, vec![var_pat("y")], None)];
    let mut run = c.begin_clauses(&uneven, "f", 0, 2);
    c.advance_clauses(&mut run, &uneven, ClauseFinding::Fine);
    assert_eq!(run.error.unwrap().message, "clause for 'f' has 1 params, expected 0");
}

fn fun_context(type_vars: Vec<u32>, annotated: bool) -> FunContext {
    FunContext { name: "f".to_string(), type_vars, annotated, where_constraints: vec![] }
}

fn not_generic() -> SchemeFinding {
    SchemeFinding::Known(GenericUse { generic: false, record: None })
}

#[test]
fn constraints_on_variables_of_a_function_become_part_of_its_scheme() {
    let mut c = in_module("M");
    c.env.insert("f".to_string(), scheme(Type::Var(7)));
    c.trait_state.pending_constraints.push(pending("M.Eq", con("M.T", vec![]), 1));
    c.trait_state.pending_constraints.push(pending("M.Show", Type::Var(7), 2));
    c.trait_state.pending_constraints.push(pending("M.Show", con("M.T", vec![]), 3));
    let mut run = c.begin_scheme(fun_context(vec![7], false), 1);
    assert_eq!(run.todo.len(), 2);
    c.advance_scheme(&mut run, not_generic());
    c.advance_scheme(&mut run, not_generic());
    assert!(matches!(run.stage, SchemeStage::Done));
    assert!(c.env.get("f").is_none());
    let left: Vec<u32> = c.trait_state.pending_constraints.iter().map(|p| p.node_id.0).collect();
    assert_eq!(left, vec![1, 3]);
    assert_eq!(c.evidence[0].node_id, NodeId(2));
    let ty = Type::arrow(Type::Var(7), Type::string());
    let generalized = Scheme { forall: vec![7], constraints: vec![], ty };
    c.finish_function(&run, generalized, Table::new()).unwrap();
    let sub = Substitution::new();
    assert_eq!(
        c.env.get("f").unwrap().display_with_constraints(&sub),
        "a -> String where {a: M.Show}"
    );
}

#[test]
fn signatures_declare_the_constraints_of_their_bodies() {
    let mut c = in_module("M");
    c.trait_state.pending_constraints.push(pending("M.Show", Type::Var(7), 2));
    let mut run = c.begin_scheme(fun_context(vec![7], true), 0);
    c.advance_scheme(&mut run, not_generic());
    match run.stage {
        SchemeStage::Failed(d) => {
            assert_eq!(d.message, "trait M.Show required but not declared in where clause for 'f'");
        }
        _ => panic!("not refused"),
    }
}

fn clause_at(place: usize, guarded: bool) -> Decl {
    Decl::FunBinding {
        id: NodeId(0),
        name: "f".to_string(),
        name_span: at(place),
        params: vec![var_pat("x")],
        guard: if guarded { Some(nothing()) } else { None },
        body: nothing(),
        span: at(place),
    }
}

#[test]
fn clauses_cover_all_cases_and_each_a_new_one() {
    let mut c = Checker::new();
    c.adt_variants.insert("Std.Bool.Bool".to_string(), vec![("True".to_string(), 0), ("False".to_string(), 0)]);
    let says = |clauses: &[(usize, bool, bool)], open: bool, witnesses: &[&str]| {
        let program: Vec<Decl> = clauses.iter().map(|k| clause_at(k.0, k.1)).collect();
        let useful = clauses.iter().map(|k| k.2).collect();
        let coverage = Coverage { useful, open, witnesses: strings(witnesses) };
        c.check_fun_exhaustiveness("f", &program, 0, program.len(), &vec![Type::bool()], &coverage)
            .map_err(|d| (d.message, d.span))
    };
    assert!(says(&[(1, false, true)], false, &[]).is_ok());
    assert_eq!(
        says(&[(1, false, true), (2, false, false)], false, &[]).unwrap_err(),
        ("unreachable clause for 'f': all cases already covered".to_string(), Some(at(2)))
    );
    assert!(says(&[(1, false, true), (2, true, false)], false, &[]).is_ok());
    assert_eq!(
        says(&[(1, false, true)], true, &["False"]).unwrap_err().0,
        "non-exhaustive clauses for 'f': missing False"
    );
    assert_eq!(says(&[(1, false, true)], true, &[]).unwrap_err().0, "non-exhaustive clauses for 'f'");
}

#[test]
fn guarded_clauses_are_not_relied_on() {
    let program =
        vec![clause_at(1, false), clause_at(2, true), clause_at(3, false), clause_at(4, true)];
    assert_eq!(unguarded_before(&program, 0, 0), vec![]);
    assert_eq!(unguarded_before(&program, 0, 2), vec![0]);
    assert_eq!(unguarded_before(&program, 0, 4), vec![0, 2]);
    assert_eq!(unguarded_before(&program, 1, 4), vec![2]);
}

fn signature(name: &str, annotations: &[&str]) -> Decl {
    Decl::FunSignature {
        id: NodeId(100),
        doc: vec![],
        public: true,
        name: name.to_string(),
        name_span: at(101),
        params: vec![],
        return_type: TypeExpr::Named { id: NodeId(0), name: "Unit".to_string(), span: at(0) },
        effects: vec![],
        effect_row_var: vec![],
        where_clause: vec![TraitBound {
            type_var: "a".to_string(),
            traits: vec![TraitRef { id: NodeId(0), name: "M.Show".to_string(), type_args: vec![], span: at(102) }],
        }],
        annotations: annotations.iter().map(|n| Annotation { name: n.to_string(), args: vec![] }).collect(),
        span: at(103),
    }
}

fn clause(id: u32, name: &str) -> Decl {
    Decl::FunBinding {
        id: NodeId(id),
        name: name.to_string(),
        name_span: at(id as usize),
        params: vec![],
        guard: None,
        body: nothing(),
        span: at(id as usize),
    }
}

fn where_parts(vars: Vec<(String, u32)>) -> WhereParts {
    WhereParts { vars, introduced: vec![vec![]], args: vec![vec![vec![]]], complaints: vec![vec![None]] }
}

fn no_annotations() -> Annotations {
    Annotations { types: Table::new(), constraints: Table::new() }
}

fn signature_parts(vars: Vec<(String, u32)>) -> SignatureParts {
    SignatureParts {
        params: vec![Type::Var(7)],
        return_type: Type::string(),
        effect_row: EffectRow::empty(),
        effect_args: vec![],
        bounds: where_parts(vars.dup()),
        vars,
        generalized: Scheme { forall: vec![7], constraints: vec![], ty: Type::arrow(Type::Var(7), Type::string()) },
    }
}

#[test]
fn signatures_bind_functions_with_their_constraints() {
    let mut c = in_module("M");
    let mut annotations = no_annotations();
    let vars = vec![("a".to_string(), 7)];
    c.collect_annotation(&mut annotations, &signature("show_it", &[]), &signature_parts(vars)).unwrap();
    let sub = Substitution::new();
    assert_eq!(
        c.env.get("show_it").unwrap().display_with_constraints(&sub),
        "a -> String where {a: M.Show}"
    );
    assert_eq!(c.env.def_id("show_it"), Some(NodeId(100)));
    assert_eq!(c.known_funs, strings(&["show_it"]));
    assert_eq!(annotations.types.named("show_it").unwrap().ty.display(), "?7 -> String");
    assert_eq!(c.lsp.fun_definitions.len(), 1);
    assert_eq!(c.fun_type_param_vars.named("show_it").unwrap().len(), 1);
    assert_eq!(c.trait_state.where_bound_var_names.get(&7), Some(&"a".to_string()));
}

#[test]
fn where_clauses_speak_of_known_variables() {
    let mut c = in_module("M");
    let mut annotations = no_annotations();
    let e = c
        .collect_annotation(&mut annotations, &signature("f", &[]), &signature_parts(vec![]))
        .unwrap_err();
    assert_eq!(e.message, "where clause references unknown type variable 'a'");
    assert_eq!(e.span, Some(at(103)));
}

#[test]
fn later_bounds_see_variables_that_earlier_ones_bring() {
    let mut c = in_module("M");
    let bound = |var: &str| TraitBound {
        type_var: var.to_string(),
        traits: vec![TraitRef { id: NodeId(0), name: "M.T".to_string(), type_args: vec![], span: at(1) }],
    };
    let vars = vec![("a".to_string(), 1)];
    let fresh = || vec![vec![("b".to_string(), 2)], vec![]];
    let args = || vec![vec![vec![]], vec![vec![]]];
    let fine = || vec![vec![None], vec![None]];
    let r = c.declare_constraints(false, at(1), "", &vars, &fresh(), &vec![bound("a"), bound("b")], &args(), &fine());
    let ids: Vec<u32> = r.unwrap().iter().map(|k| k.1).collect();
    assert_eq!(ids, vec![1, 2]);
    let r = c.declare_constraints(
        false,
        at(1),
        " here",
        &vars,
        &vec![vec![], vec![("b".to_string(), 2)]],
        &vec![bound("b"), bound("a")],
        &args(),
        &fine(),
    );
    assert_eq!(r.unwrap_err().message, "where clause references unknown type variable 'b' here");
}

#[test]
fn external_functions_are_pure() {
    let mut c = in_module("M");
    let bounds: Vec<TraitBound> = vec![];
    let parts = || WhereParts { vars: vec![], introduced: vec![], args: vec![], complaints: vec![] };
    let e = c
        .register_external("now", &vec![effect_ref("Time")], &bounds, at(5), &parts(), scheme(Type::unit()))
        .unwrap_err();
    assert_eq!(
        e.message,
        "external function 'now' cannot declare effects with `needs` -- wrap it in a local function instead"
    );
    assert!(c.env.get("now").is_none());
    c.register_external("now", &vec![], &bounds, at(5), &parts(), scheme(Type::unit())).unwrap();
    assert_eq!(c.env.get("now").unwrap().ty.display(), "Unit");
}

#[test]
fn functions_have_variables_before_their_bodies() {
    let mut c = in_module("M");
    let first = c.next_var;
    let program = vec![clause(1, "f"), clause(2, "f"), clause(3, "g")];
    let vars = c.pre_bind_functions(&program, &no_annotations());
    assert_eq!(vars.len(), 2);
    assert_eq!(vars.named("f").unwrap().display(), format!("?{}", first));
    assert_eq!(vars.named("g").unwrap().display(), format!("?{}", first + 1));
    assert_eq!(c.next_var, first + 2);
    assert_eq!(c.env.def_id("f"), Some(NodeId(1)));
    assert_eq!(c.lsp.references, vec![(NodeId(2), at(2), NodeId(1))]);
    assert_eq!(c.known_funs, strings(&["f", "g"]));
}

fn fun_with(param: Type, result: Type, row: EffectRow) -> Type {
    Type::Fun(Box::new(param), Box::new(result), row)
}

#[test]
fn functions_begin_with_what_their_annotation_says() {
    let mut c = in_module("M");
    let first = c.next_var;
    let ann = fun_with(Type::string(), Type::unit(), effects(&["A.Log"]));
    let start = c.begin_function(1, Some(&ann), &Type::Var(90));
    assert_eq!(start.result, first);
    assert_eq!(start.params, vec![first + 1]);
    let shown: Vec<(String, String)> =
        start.pairs.iter().map(|(a, b)| (a.display(), b.display())).collect();
    let (result, param) = (format!("?{}", first), format!("?{}", first + 1));
    assert_eq!(shown[0], (param.clone(), "String".to_string()));
    assert_eq!(shown[1], (result.clone(), "Unit".to_string()));
    assert_eq!(shown[2], ("?90".to_string(), format!("{} -> {} needs {{A.Log}}", param, result)));
    assert!(c.begin_function(1, None, &Type::Var(90)).pairs.is_empty());
}

#[test]
fn bodies_take_what_the_signature_declares_for_granted() {
    let mut c = in_module("M");
    with_effect(&mut c, "A", "State", &["get"]);
    let mut state = c.effects.named("A.State").unwrap().dup();
    state.type_params = vec![30];
    c.effects.insert("A.State".to_string(), state);
    c.fun_type_param_vars.insert("f".to_string(), vec![("a".to_string(), 7)]);
    c.fun_type_constraints.insert("f".to_string(), vec![("A.State".to_string(), vec![Type::string()])]);
    c.trait_forward_row_vars.push((1, "M.T".to_string()));
    c.enter_function("f", &vec![("M.Show".to_string(), 7, vec![])]);
    assert_eq!(c.outer_named_type_vars.named("a"), Some(&7));
    assert_eq!(c.trait_state.where_bounds.get(&7), Some(&strings(&["M.Show"])));
    let cached = c.type_param_cache.named("A.State").unwrap();
    assert_eq!(cached.get(&30).unwrap().display(), "String");
    assert!(c.trait_forward_row_vars.is_empty());
}

fn fun_body(annotation: Option<Type>, used: EffectRow) -> FunBody {
    FunBody {
        name: "f".to_string(),
        span: at(50),
        annotation,
        annotation_span: Some(at(51)),
        declared_row: None,
        params: vec![Type::string()],
        result: Type::unit(),
        effects: used,
        absorbed: vec![],
        coverage: None,
        candidates: vec![],
        returned_handler: None,
        forwarded: vec![],
    }
}

#[test]
fn functions_have_the_effects_that_they_declare_or_else_those_of_their_bodies() {
    let mut c = in_module("M");
    let logs = || effects(&["A.Log"]);
    let inferred = c.check_fun_clauses(&fun_body(None, logs())).unwrap();
    assert_eq!(inferred.display(), "String -> Unit needs {A.Log}");
    let ann = || Some(fun_with(Type::string(), Type::unit(), logs()));
    let declared = c.check_fun_clauses(&fun_body(ann(), logs())).unwrap();
    assert_eq!(declared.display(), "String -> Unit needs {A.Log}");
    assert!(c.unused_effects.is_empty());
    c.check_fun_clauses(&fun_body(ann(), EffectRow::empty())).unwrap();
    assert_eq!(c.unused_effects, vec![(at(51), "f".to_string(), strings(&["A.Log"]))]);
    let pure_ann = Some(Type::arrow(Type::string(), Type::unit()));
    let e = c.check_fun_clauses(&fun_body(pure_ann, logs())).unwrap_err();
    assert_eq!(e.message, "function 'f' uses effects {Log} but has no 'needs' declaration");
    assert_eq!(e.span, Some(at(50)));
}

#[test]
fn functions_handle_or_forward_the_effects_of_their_parameters() {
    let mut c = in_module("M");
    let takes = |row: EffectRow| fun_with(Type::unit(), Type::unit(), row);
    let ann = || Some(Type::arrow(takes(effects(&["A.Log"])), Type::unit()));
    let mut body = fun_body(ann(), effects(&["A.Log"]));
    body.absorbed = strings(&["A.Log"]);
    assert_eq!(
        c.check_fun_clauses(&body).unwrap_err().message,
        "`f` calls a callback parameter whose declared effect {A.Log} is not handled; either wrap the callback call in `with`, or add `needs {A.Log}` to the annotation to forward the effect to the caller"
    );
    let open = EffectRow { effects: vec![], tails: vec![Type::Var(70)] };
    let mut body = fun_body(Some(Type::arrow(takes(open.dup()), Type::unit())), EffectRow::empty());
    body.params = vec![takes(open.dup())];
    assert!(c.check_fun_clauses(&body).unwrap_err().message.starts_with(
        "`f` accepts a callback with an open effect row but does not forward it"
    ));
    body.annotation = Some(fun_with(takes(open.dup()), Type::unit(), open));
    assert!(c.check_fun_clauses(&body).is_ok());
}

#[test]
fn functions_forward_what_open_methods_do() {
    let mut c = in_module("M");
    c.fun_type_param_vars.insert("f".to_string(), vec![("item".to_string(), 7)]);
    c.trait_forward_row_vars.push((7, "M.Run".to_string()));
    let ann = Some(Type::arrow(Type::string(), Type::unit()));
    assert_eq!(
        c.check_fun_clauses(&fun_body(ann, EffectRow::empty())).unwrap_err().message,
        "`f` calls an open-row method of `Run item` but does not forward its effects; add `needs {..item}` to the annotation to forward `item`'s effects to the caller"
    );
}

#[test]
fn fields_of_unknown_records_are_ambiguous() {
    let mut c = in_module("M");
    let mut body = fun_body(None, EffectRow::empty());
    body.candidates = vec![(70, strings(&["Point", "Box"]), at(52))];
    let e = c.check_fun_clauses(&body).unwrap_err();
    assert_eq!(
        e.message,
        "ambiguous field access: could be any of [Box, Point] which all have this field; add a type annotation to disambiguate"
    );
    assert_eq!(e.span, Some(at(52)));
}

#[test]
fn only_refutable_patterns_can_fail() {
    assert!(!clause_can_fail(&vec![var_pat("x"), Pat::Wildcard { id: NodeId(0), span: at(0) }]));
    let unit = Pat::Other { id: NodeId(0), span: at(0) };
    assert!(clause_can_fail(&vec![var_pat("x"), unit]));
}

#[test]
fn branches_of_functions_join_their_effects() {
    let sub = Substitution::new();
    let (log, fail) = (effects(&["A.Log"]), effects(&["A.Fail"]));
    let tys = vec![
        fun_with(Type::string(), Type::unit(), log),
        fun_with(Type::Var(3), Type::Var(4), fail),
    ];
    match plan_branch_join(&sub, &tys) {
        BranchJoin::Functions { param, other_params, results, rows } => {
            assert_eq!(param.display(), "String");
            assert_eq!(other_params[0].display(), "?3");
            assert_eq!(results.len(), 2);
            assert_eq!(rows[1].effects[0].name, "A.Fail");
            let joined = join_branch_types(&sub, &param, Type::unit(), effects(&["A.Fail", "A.Log"]));
            assert_eq!(joined.display(), "String -> Unit needs {A.Fail, A.Log}");
        }
        _ => panic!("not functions"),
    }
    assert!(matches!(plan_branch_join(&sub, &vec![]), BranchJoin::Fresh));
    assert!(matches!(plan_branch_join(&sub, &vec![Type::unit()]), BranchJoin::Single(_)));
    let mixed = vec![Type::unit(), Type::arrow(Type::unit(), Type::unit())];
    assert!(matches!(plan_branch_join(&sub, &mixed), BranchJoin::Unify { .. }));
}

#[test]
fn shared_tails_are_widened_by_all_their_rows() {
    let sub = Substitution::new();
    let open = || EffectRow { effects: vec![], tails: vec![Type::Var(9)] };
    let expected = vec![
        fun_with(Type::unit(), Type::unit(), open()),
        Type::string(),
        fun_with(Type::unit(), Type::unit(), open()),
    ];
    let positions = shared_tail_positions(&sub, &expected);
    assert_eq!(positions.get(&9), Some(&vec![0, 2]));
    let actual = vec![
        fun_with(Type::unit(), Type::unit(), effects(&["A.Log"])),
        Type::string(),
        fun_with(Type::unit(), Type::unit(), effects(&["A.Fail"])),
    ];
    let rows = prewiden_shared_rows(&sub, &actual, &vec![0, 2]).unwrap();
    let names: Vec<&str> = rows.iter().map(|r| r.effects[0].name.as_str()).collect();
    assert_eq!(names, vec!["A.Log", "A.Fail"]);
    let mut sub = sub;
    let join = plan_row_join(&sub, &rows);
    let joined = join_effect_rows(&mut sub, &join, 20, at(1)).unwrap();
    bind_shared_tail(&mut sub, 9, joined, at(1)).unwrap();
    let widened = sub.apply_effect_row(&open());
    let names: Vec<&str> = widened.effects.iter().map(|e| e.name.as_str()).collect();
    assert_eq!(names, vec!["A.Log", "A.Fail"]);
    let own = EffectRow { effects: effects(&["A.Log"]).effects, tails: vec![Type::Var(3)] };
    let e = bind_shared_tail(&mut sub, 3, own, at(7)).unwrap_err();
    assert_eq!(e.message, "infinite effect row: ?3 occurs in its own binding");
    assert_eq!(e.span, Some(at(7)));
    assert!(prewiden_shared_rows(&sub, &actual, &vec![0]).is_none());
    assert!(prewiden_shared_rows(&sub, &actual, &vec![0, 1]).is_none());
}

#[test]
fn handlers_in_use_handle_their_effects() {
    let mut c = in_module("M");
    with_effect(&mut c, "A", "Log", &["log"]);
    with_effect(&mut c, "A", "Fail", &["fail"]);
    handle(&mut c, &handler_body(&["log"], vec![]), EffectRow::empty()).unwrap();
    let found = c.handler_handled_effects(&HandlerUse {
        named: vec![(NodeId(1), "quiet".to_string())],
        arms: vec![(NodeId(2), "fail".to_string(), None)],
    });
    assert_eq!(found, strings(&["A.Log", "A.Fail"]));
}

#[test]
fn rows_name_the_effects_that_they_are_written_with() {
    let mut c = in_module("M");
    with_effect(&mut c, "A", "Log", &["log"]);
    let row = c.effect_row_from_refs(&vec![effect_ref("Log")], vec![vec![Type::string()]]);
    assert_eq!(row.effects.len(), 1);
    assert_eq!(row.effects[0].name, "A.Log");
    assert_eq!(row.effects[0].args[0].display(), "String");
    assert!(row.tails.is_empty());
}

#[test]
fn records_are_constructors_too() {
    let mut c = in_module("M");
    let params = vec![star("a")];
    let vars = c.fresh_param_vars(&params);
    let fields = vec![("value".to_string(), Type::Var(vars[0].1))];
    c.register_record_def("Box", &params, &vars, fields, NodeId(44));
    assert!(c.records.has_name("M.Box"));
    assert_eq!(c.type_arity.named("M.Box"), Some(&1));
    assert_eq!(c.lsp.constructor_def_ids.named("Box"), Some(&NodeId(44)));
}

#[test]
fn a_unification_that_fails_fails_the_constraint() {
    let mut c = in_module("M");
    let solver = Solver::new(&c);
    assert!(matches!(solver.unified(&c, None), Action::Step));
    c.next_var = 9;
    assert_eq!(c.fun_type_vars(&Type::arrow(Type::Var(4), Type::Var(2))), vec![4, 2]);
}

// Programs.

fn import(name: &str) -> Decl {
    Decl::Import { id: NodeId(0), module: strings(&[name]), alias: None, exposing: None, span: at(0) }
}

#[test]
fn the_module_is_taken_from_the_program_unless_it_is_given() {
    let program = vec![import("A"), Decl::ModuleDecl { path: strings(&["A", "B"]), span: at(0) }];
    let mut c = Checker::new();
    c.infer_current_module(&program);
    assert_eq!(c.current_module, Some("A.B".to_string()));
    let mut c = in_module("Given");
    c.infer_current_module(&program);
    assert_eq!(c.current_module, Some("Given".to_string()));
}

#[test]
fn own_types_shadow_imported_ones() {
    let mut c = in_module("M");
    c.scope_map.types.insert("A".to_string(), "Other.A".to_string());
    c.seed_local_type_names(&vec![alias("A", "Int")]);
    assert_eq!(c.scope_map.resolve_type("A"), Some(&"M.A".to_string()));
    assert!(c.begin_program(&vec![], None, &vec![]).is_ok());
}

#[test]
fn definitions_are_registered_in_passes() {
    let effect = Decl::EffectDef {
        id: NodeId(0),
        doc: vec![],
        public: true,
        name: "Log".to_string(),
        name_span: at(0),
        type_params: vec![],
        operations: vec![],
        span: at(0),
    };
    let record = Decl::RecordDef {
        id: NodeId(0),
        doc: vec![],
        public: true,
        name: "User".to_string(),
        name_span: at(0),
        type_params: vec![],
        fields: vec![],
        span: at(0),
    };
    let steps = plan_definitions(&vec![alias("A", "Int"), effect, record, clause(1, "f")]);
    assert_eq!(
        steps,
        vec![
            DefinitionStep::EffectStub(1),
            DefinitionStep::Record(2),
            DefinitionStep::BeginAliases,
            DefinitionStep::Alias(0),
            DefinitionStep::EffectOps(1),
        ]
    );
}

#[test]
fn clauses_of_one_function_are_checked_together() {
    let program = vec![clause(1, "f"), clause(2, "f"), clause(3, "g"), import("A"), clause(4, "f")];
    assert_eq!(next_body(&program, 0), BodyStep::Function { start: 0, end: 2 });
    assert_eq!(next_body(&program, 2), BodyStep::Function { start: 2, end: 3 });
    assert_eq!(next_body(&program, 3), BodyStep::Other(3));
    assert_eq!(next_body(&program, 4), BodyStep::Function { start: 4, end: 5 });
    assert_eq!(next_body(&program, 5), BodyStep::End);
}

fn impl_decl() -> Decl {
    Decl::ImplDef {
        id: NodeId(90),
        trait_name: "Show".to_string(),
        trait_name_span: at(91),
        trait_type_args: vec![],
        target_type: "T".to_string(),
        target_type_span: at(92),
        target_type_expr: None,
        type_params: vec![],
        where_clause: vec![],
        where_apps: vec![],
        needs: vec![],
        methods: vec![],
        span: at(93),
    }
}

#[test]
fn passes_go_through_the_declarations_in_order() {
    let mut c = Checker::new();
    let program = vec![
        signature("now", &["external"]),
        alias("A", "Int"),
        impl_decl(),
        signature("f", &[]),
        clause(1, "f"),
        import("B"),
        impl_decl(),
    ];
    let mut run = ProgramRun::new(&program);
    let mut seen = vec![];
    while run.pass != ProgramPass::Done {
        seen.push(run.pass);
        c.check_program_inner(&mut run, &program, &no_annotations(), Ok(()));
    }
    assert_eq!(
        seen,
        vec![
            ProgramPass::Import(5),
            ProgramPass::LoadReferenced,
            ProgramPass::ResolveNames,
            ProgramPass::Definition(0),
            ProgramPass::Definition(1),
            ProgramPass::External(0),
            ProgramPass::Signature(0),
            ProgramPass::Signature(3),
            ProgramPass::PreBind,
            ProgramPass::Impl(2),
            ProgramPass::Impl(6),
            ProgramPass::Supertraits,
            ProgramPass::Body(BodyStep::Other(0)),
            ProgramPass::Body(BodyStep::Other(1)),
            ProgramPass::Body(BodyStep::Other(2)),
            ProgramPass::Body(BodyStep::Other(3)),
            ProgramPass::Body(BodyStep::Function { start: 4, end: 5 }),
            ProgramPass::Body(BodyStep::Other(5)),
            ProgramPass::Body(BodyStep::Other(6)),
            ProgramPass::Constraints,
        ]
    );
}

#[test]
fn errors_of_impls_are_collected_after_the_last_one() {
    let mut c = Checker::new();
    let program = vec![impl_decl(), impl_decl()];
    let mut run = ProgramRun::new(&program);
    run_to(&mut c, &mut run, &program, ProgramPass::Impl(0));
    c.check_program_inner(&mut run, &program, &no_annotations(), Err(vec![error("one")]));
    assert!(c.collected_diagnostics.is_empty());
    assert_eq!(run.pass, ProgramPass::Impl(1));
    c.check_program_inner(&mut run, &program, &no_annotations(), Err(vec![error("two")]));
    assert_eq!(messages(&c.collected_diagnostics), vec!["one", "two"]);
    assert_eq!(run.pass, ProgramPass::Supertraits);
}

fn run_to(c: &mut Checker, run: &mut ProgramRun, program: &Vec<Decl>, stop: ProgramPass) {
    while run.pass != stop {
        assert_ne!(run.pass, ProgramPass::Done);
        c.check_program_inner(run, program, &no_annotations(), Ok(()));
    }
}

#[test]
fn a_program_without_errors_is_fine() {
    let mut c = Checker::new();
    let program = vec![import("A"), clause(1, "f")];
    let mut run = ProgramRun::new(&program);
    assert_eq!(run.pass, ProgramPass::Import(0));
    run_to(&mut c, &mut run, &program, ProgramPass::Done);
    assert!(run.finish().is_ok());
    assert!(c.check_program(Ok(()), vec![]).is_empty());
}

#[test]
fn a_failing_import_ends_the_check() {
    let mut c = Checker::new();
    let program = vec![import("A"), import("B")];
    let mut run = ProgramRun::new(&program);
    c.check_program_inner(&mut run, &program, &no_annotations(), Err(vec![error("no such module")]));
    assert_eq!(run.pass, ProgramPass::Done);
    let found = run.finish();
    assert_eq!(messages(found.as_ref().unwrap_err()), vec!["no such module"]);
    let warning = Diagnostic::warning_at(at(1), "unused".to_string());
    assert_eq!(messages(&c.check_program_lsp(found, vec![warning])), vec!["no such module", "unused"]);
}

#[test]
fn a_failing_function_leaves_no_constraints_and_the_check_goes_on() {
    let mut c = Checker::new();
    let program = vec![clause(1, "f"), import("A"), clause(2, "g"), impl_decl()];
    let mut run = ProgramRun::new(&program);
    run_to(&mut c, &mut run, &program, ProgramPass::Impl(3));
    c.check_program_inner(&mut run, &program, &no_annotations(), Err(vec![error("bad impl")]));
    assert_eq!(run.pass, ProgramPass::Supertraits);
    c.check_program_inner(&mut run, &program, &no_annotations(), Ok(()));
    assert_eq!(run.pass, ProgramPass::Body(BodyStep::Function { start: 0, end: 1 }));
    c.trait_state.pending_constraints.push(pending("Show", Type::Var(0), 1));
    c.collected_diagnostics.push(Diagnostic::warning_at(at(1), "careful".to_string()));
    c.check_program_inner(&mut run, &program, &no_annotations(), Err(vec![error("bad f")]));
    assert!(c.trait_state.pending_constraints.is_empty());
    assert_eq!(messages(&c.collected_diagnostics), vec!["careful"]);
    assert_eq!(messages(&run.errors), vec!["bad f", "bad impl"]);
    assert_eq!(run.pass, ProgramPass::Body(BodyStep::Other(1)));
    run_to(&mut c, &mut run, &program, ProgramPass::Constraints);
    c.check_program_inner(&mut run, &program, &no_annotations(), Err(vec![error("unsolved")]));
    assert_eq!(messages(&run.finish().unwrap_err()), vec!["bad f", "bad impl", "unsolved"]);
}

#[test]
fn draining_takes_errors_and_leaves_warnings() {
    let mut c = Checker::new();
    c.collected_diagnostics.push(error("one"));
    c.collected_diagnostics.push(Diagnostic::warning_at(at(1), "two".to_string()));
    c.collected_diagnostics.push(error("three"));
    let errors = c.drain_errors();
    assert_eq!(messages(&errors), vec!["one", "three"]);
    assert!(errors.iter().all(|d| d.severity == Severity::Error));
    assert_eq!(messages(&c.collected_diagnostics), vec!["two"]);
}

#[test]
fn main_has_no_caller() {
    let mut c = Checker::new();
    assert!(c.validate_main(&vec![]).is_empty());
    let ty = function_type_with_innermost_effects(&vec![Type::unit()], Type::unit(), effects(&["Log", "Fail"]));
    c.env.insert("main".to_string(), Scheme { forall: vec![], constraints: vec![("Show".to_string(), 3, vec![])], ty });
    let errors = c.validate_main(&vec![clause(6, "main")]);
    assert_eq!(
        messages(&errors),
        vec![
            "`main` cannot use `needs` -- it is the entry point and there is no caller to provide handlers for {Log, Fail}. Handle effects inside `main` using `with` instead.",
            "`main` cannot have unresolved trait constraints [Show] -- it is the entry point and there is no caller to supply dictionaries",
        ]
    );
    assert_eq!(errors[0].span, Some(at(6)));
    let errors = c.validate_main(&vec![clause(6, "main"), signature("main", &[])]);
    assert_eq!(errors[0].span, Some(at(103)));
    assert_eq!(errors[1].span, Some(at(6)));
}

#[test]
fn signatures_need_bodies_unless_the_code_is_elsewhere() {
    let found = |program: Vec<Decl>, bodyless: bool| {
        let mut c = in_module("M");
        c.allow_bodyless_annotations = bodyless;
        let mut annotations = no_annotations();
        c.collect_annotation(&mut annotations, &program[0], &signature_parts(vec![("a".to_string(), 7)])).unwrap();
        let mut run = ProgramRun::new(&program);
        while run.pass != ProgramPass::Done {
            c.check_program_inner(&mut run, &program, &annotations, Ok(()));
        }
        run.finish()
    };
    let missing = found(vec![signature("f", &[])], false).unwrap_err();
    assert_eq!(messages(&missing), vec!["type annotation for `f` has no matching function definition"]);
    assert!(found(vec![signature("f", &[]), clause(1, "f")], false).is_ok());
    assert!(found(vec![signature("f", &["external"])], false).is_ok());
    assert!(found(vec![signature("f", &["builtin"])], false).is_ok());
    assert!(found(vec![signature("f", &[])], true).is_ok());
}

#[test]
fn modules_that_are_spoken_of_are_loaded_once() {
    let mut c = Checker::new();
    assert!(c.should_auto_load("Std.Math", false));
    assert!(c.should_auto_load("Mine", true));
    assert!(!c.should_auto_load("Mine", false));
    let mut x = ModuleExports::new();
    x.bindings.push(("pi".to_string(), scheme(Type::float())));
    c.auto_load_referenced_module("Std.Math", Ok(&x));
    assert_eq!(c.env.get("Std.Math.pi").unwrap().ty.display(), "Float");
    assert!(c.scope_map.resolve_value("pi").is_none());
    assert!(!c.should_auto_load("Std.Math", false));
    c.auto_load_referenced_module("Mine", Err(error("cannot read")));
    assert_eq!(messages(&c.collected_diagnostics), vec!["cannot read"]);
}

#[test]
fn top_level_values_are_bound() {
    let mut c = Checker::new();
    c.check_let(NodeId(3), "x", at(4), scheme(Type::int_type()));
    assert_eq!(c.env.get("x").unwrap().ty.display(), "Int");
    assert_eq!(c.env.def_id("x"), Some(NodeId(3)));
    assert_eq!(c.lsp.node_spans.get(&NodeId(3)), Some(&at(4)));
    c.record_impl_names("Show", at(5), "T", at(6));
    assert_eq!(c.lsp.type_references, vec![(at(5), "Show".to_string()), (at(6), "T".to_string())]);
}
