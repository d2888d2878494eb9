//! What a checker knows before any module is loaded.

use vstd::prelude::*;
use crate::canonical_exports::with_env_binding;
use crate::checker::{
    Checker, CheckerModel, LspModel, LspState, Resolution, ResolutionModel, TraitState,
    TraitStateModel,
};
use crate::infos::{ImplInfo, ImplModel, TraitInfo, TraitMethodInfo, TraitModel};
use crate::schemes::{EnvModel, Scheme, SchemeModel, TypeEnv};
use crate::scope::{empty_scope, ScopeMap};
use crate::subst::{acyclic, Sub, Substitution};
use crate::table::{put, Table};
use crate::type_ops::{arrow_ty, con_ty};
use crate::types::{Ty, Type, group_type_models};
use crate::values::push_value;

verus! {

/// A trait without methods.
pub open spec fn marker_trait() -> TraitModel {
    TraitModel { type_params: seq!["a"@], supertraits: Seq::empty(), methods: Seq::empty() }
}

/// An impl that asks for traits of the arguments of its target, by position.
pub open spec fn builtin_impl(needs: Seq<(Seq<char>, usize)>) -> ImplModel {
    ImplModel {
        param_constraints: needs,
        param_constraints_by_var: Seq::empty(),
        param_constraints_by_var_with_args: Seq::empty(),
        target_pattern: None,
        trait_type_args: Seq::empty(),
        target_type_param_ids: Seq::empty(),
        span: None,
        method_effects: Seq::empty(),
    }
}

/// The state with an impl of a trait for a type.
pub open spec fn with_builtin_impl(
    t: TraitStateModel,
    name: Seq<char>,
    target: Seq<char>,
    needs: Seq<(Seq<char>, usize)>,
) -> TraitStateModel {
    TraitStateModel {
        impls: put(t.impls, (name, Seq::empty(), target), builtin_impl(needs)),
        ..t
    }
}

pub open spec fn with_plain_impl(
    name: Seq<char>,
    t: TraitStateModel,
    target: Seq<char>,
) -> TraitStateModel {
    with_builtin_impl(t, name, target, Seq::empty())
}

/// The state with impls of a trait for some types.
pub open spec fn with_plain_impls(
    name: Seq<char>,
    acc: TraitStateModel,
    items: Seq<Seq<char>>,
) -> TraitStateModel
    decreases items.len(),
{
    if items.len() == 0 {
        acc
    } else {
        with_plain_impl(name, with_plain_impls(name, acc, items.drop_last()), items.last())
    }
}

/// The state with a trait that the operators of some types go by.
pub open spec fn with_marker(
    t: TraitStateModel,
    name: Seq<char>,
    targets: Seq<Seq<char>>,
) -> TraitStateModel {
    with_plain_impls(
        name,
        TraitStateModel { traits: put(t.traits, name, marker_trait()), ..t },
        targets,
    )
}

/// The traits and impls that are built in.
pub open spec fn with_builtin_traits(t: TraitStateModel) -> TraitStateModel {
    let num = with_marker(t, "Num"@, seq!["Int"@, "Float"@]);
    let semigroup = with_marker(num, "Semigroup"@, seq!["String"@, "List"@]);
    let eq = with_marker(
        semigroup,
        "Eq"@,
        seq!["Int"@, "Float"@, "String"@, "Bool"@, "Unit"@],
    );
    let show = with_builtin_impl(eq, "Show"@, "Tuple"@, Seq::empty());
    let debug = with_builtin_impl(show, "Debug"@, "Tuple"@, Seq::empty());
    let tuple_eq = with_builtin_impl(debug, "Eq"@, "Tuple"@, Seq::empty());
    with_builtin_impl(
        tuple_eq,
        "Eq"@,
        "Dict"@,
        seq![("Eq"@, 0usize), ("Eq"@, 1usize)],
    )
}

/// The scheme of a type with one variable.
pub open spec fn of_one(id: u32, ty: Ty) -> SchemeModel {
    SchemeModel { forall: seq![id], constraints: Seq::empty(), ty }
}

/// The scheme of a type without variables.
pub open spec fn of_none(ty: Ty) -> SchemeModel {
    SchemeModel { forall: Seq::empty(), constraints: Seq::empty(), ty }
}

/// The type of lists.
pub open spec fn list_of(id: u32) -> Ty {
    Ty::Con("List"@, seq![Ty::Var(id)])
}

/// The constructors that are built in, given the variables of `Nil` and `Cons`.
pub open spec fn with_builtin_ctors(
    ctors: Seq<(Seq<char>, SchemeModel)>,
    nil: u32,
    cons: u32,
) -> Seq<(Seq<char>, SchemeModel)> {
    let truth = con_ty("Std.Bool.Bool"@);
    put(
        put(
            put(
                put(ctors, "Nil"@, of_one(nil, list_of(nil))),
                "Cons"@,
                of_one(cons, arrow_ty(Ty::Var(cons), arrow_ty(list_of(cons), list_of(cons)))),
            ),
            "True"@,
            of_none(truth),
        ),
        "False"@,
        of_none(truth),
    )
}

pub open spec fn with_arity_zero(arities: Seq<(Seq<char>, usize)>, name: Seq<char>) -> Seq<
    (Seq<char>, usize),
> {
    put(arities, name, 0)
}

/// Types that take no arguments.
pub open spec fn with_arities_zero(
    acc: Seq<(Seq<char>, usize)>,
    items: Seq<Seq<char>>,
) -> Seq<(Seq<char>, usize)>
    decreases items.len(),
{
    if items.len() == 0 {
        acc
    } else {
        with_arity_zero(with_arities_zero(acc, items.drop_last()), items.last())
    }
}

/// The state with what is built in.
pub open spec fn with_builtins(c: CheckerModel) -> CheckerModel {
    let id = c.next_var;
    let panicking = with_env_binding(
        c.env,
        "panic"@,
        of_one(id, arrow_ty(con_ty("Std.String.String"@), Ty::Var(id))),
        None,
    );
    let next = (id + 1) as u32;
    CheckerModel {
        trait_state: with_builtin_traits(c.trait_state),
        env: with_env_binding(
            panicking,
            "todo"@,
            of_one(next, arrow_ty(con_ty("Std.Base.Unit"@), Ty::Var(next))),
            None,
        ),
        constructors: with_builtin_ctors(c.constructors, (id + 2) as u32, (id + 3) as u32),
        adt_variants: put(
            put(c.adt_variants, "List"@, seq![("Nil"@, 0usize), ("Cons"@, 2usize)]),
            "Bool"@,
            seq![("True"@, 0usize), ("False"@, 0usize)],
        ),
        type_arity: put(
            with_arities_zero(
                c.type_arity,
                seq!["Int"@, "Float"@, "String"@, "Bool"@, "Unit"@],
            ),
            "List"@,
            1usize,
        ),
        next_var: (id + 4) as u32,
        ..c
    }
}

fn two_names(a: &str, b: &str) -> (r: Vec<String>)
    ensures
        r.deep_view() == seq![a@, b@],
{
    let mut v: Vec<String> = Vec::new();
    push_value(&mut v, a.to_owned());
    push_value(&mut v, b.to_owned());
    assert(v.deep_view() =~= seq![a@, b@]);
    v
}

fn primitive_names() -> (r: Vec<String>)
    ensures
        r.deep_view() == seq!["Int"@, "Float"@, "String"@, "Bool"@, "Unit"@],
{
    let mut v = two_names("Int", "Float");
    push_value(&mut v, "String".to_owned());
    push_value(&mut v, "Bool".to_owned());
    push_value(&mut v, "Unit".to_owned());
    assert(v.deep_view() =~= seq!["Int"@, "Float"@, "String"@, "Bool"@, "Unit"@]);
    v
}

fn two_variants(a: &str, a_fields: usize, b: &str, b_fields: usize) -> (r: Vec<(String, usize)>)
    ensures
        r.deep_view() == seq![(a@, a_fields), (b@, b_fields)],
{
    let mut v: Vec<(String, usize)> = Vec::new();
    push_value(&mut v, (a.to_owned(), a_fields));
    push_value(&mut v, (b.to_owned(), b_fields));
    assert(v.deep_view() =~= seq![(a@, a_fields), (b@, b_fields)]);
    v
}

fn scheme_of_one(id: u32, ty: Type) -> (r: Scheme)
    ensures
        r.deep_view() == of_one(id, ty@),
{
    let mut forall_vars: Vec<u32> = Vec::new();
    push_value(&mut forall_vars, id);
    assert(forall_vars.deep_view() =~= seq![id]);
    let free: Vec<(String, u32, Vec<Type>)> = Vec::new();
    assert(free.deep_view() =~= Seq::empty());
    Scheme { forall: forall_vars, constraints: free, ty }
}

fn scheme_of_none(ty: Type) -> (r: Scheme)
    ensures
        r.deep_view() == of_none(ty@),
{
    let forall_vars: Vec<u32> = Vec::new();
    assert(forall_vars.deep_view() =~= Seq::empty());
    let free: Vec<(String, u32, Vec<Type>)> = Vec::new();
    assert(free.deep_view() =~= Seq::empty());
    Scheme { forall: forall_vars, constraints: free, ty }
}

fn list_type(id: u32) -> (r: Type)
    ensures
        r@ == list_of(id),
{
    broadcast use group_type_models;

    let mut args: Vec<Type> = Vec::new();
    push_value(&mut args, Type::Var(id));
    let t = Type::Con("List".to_owned(), args);
    proof {
        crate::types::con_model(t->Con_0, t->Con_1);
        assert(args.deep_view() =~= seq![Ty::Var(id)]);
    }
    t
}

fn add_builtin_impl(
    impls: &mut Table<(String, Vec<String>, String), ImplInfo>,
    name: &str,
    target: &str,
    needs: Vec<(String, usize)>,
)
    ensures
        final(impls).order() == put(
            old(impls).order(),
            (name@, Seq::<Seq<char>>::empty(), target@),
            builtin_impl(needs.deep_view()),
        ),
{
    let none: Vec<String> = Vec::new();
    let by_var: Vec<(String, u32)> = Vec::new();
    let with_args: Vec<(String, u32, Vec<Type>)> = Vec::new();
    let args: Vec<Type> = Vec::new();
    let ids: Vec<u32> = Vec::new();
    proof {
        assert(none.deep_view() =~= Seq::empty());
        assert(by_var.deep_view() =~= Seq::empty());
        assert(with_args.deep_view() =~= Seq::empty());
        assert(args.deep_view() =~= Seq::empty());
        assert(ids.deep_view() =~= Seq::empty());
    }
    let info = ImplInfo {
        param_constraints: needs,
        param_constraints_by_var: by_var,
        param_constraints_by_var_with_args: with_args,
        target_pattern: None,
        trait_type_args: args,
        target_type_param_ids: ids,
        span: None,
        method_effects: Table::new(),
    };
    impls.insert((name.to_owned(), none, target.to_owned()), info);
}

fn no_needs() -> (r: Vec<(String, usize)>)
    ensures
        r.deep_view() == Seq::<(Seq<char>, usize)>::empty(),
{
    let none: Vec<(String, usize)> = Vec::new();
    assert(none.deep_view() =~= Seq::empty());
    none
}

fn add_plain_impls(name: &str, acc: &mut TraitState, items: &Vec<String>)
    ensures
        final(acc).deep_view() == with_plain_impls(name@, old(acc).deep_view(), items.deep_view()),
{
    let ghost a0 = acc.deep_view();
    let ghost all = items.deep_view();
    let mut i: usize = 0;
    assert(all.take(0) =~= Seq::empty());
    while i < items.len()
        invariant
            i <= items.len(),
            all == items.deep_view(),
            acc.deep_view() == with_plain_impls(name@, a0, all.take(i as int)),
        decreases items.len() - i,
    {
        proof {
            assert(all.take(i + 1).drop_last() =~= all.take(i as int));
            assert(all.take(i + 1).last() == all[i as int]);
        }
        add_builtin_impl(&mut acc.impls, name, items[i].as_str(), no_needs());
        i = i + 1;
    }
    assert(all.take(i as int) =~= all);
}

fn add_arities_zero(acc: &mut Table<String, usize>, items: &Vec<String>)
    ensures
        final(acc).order() == with_arities_zero(old(acc).order(), items.deep_view()),
{
    let ghost a0 = acc.order();
    let ghost all = items.deep_view();
    let mut i: usize = 0;
    assert(all.take(0) =~= Seq::empty());
    while i < items.len()
        invariant
            i <= items.len(),
            all == items.deep_view(),
            acc.order() == with_arities_zero(a0, all.take(i as int)),
        decreases items.len() - i,
    {
        proof {
            assert(all.take(i + 1).drop_last() =~= all.take(i as int));
            assert(all.take(i + 1).last() == all[i as int]);
        }
        acc.insert(items[i].clone(), 0);
        i = i + 1;
    }
    assert(all.take(i as int) =~= all);
}

fn add_marker(t: &mut TraitState, name: &str, targets: &Vec<String>)
    ensures
        final(t).deep_view() == with_marker(old(t).deep_view(), name@, targets.deep_view()),
{
    let mut params: Vec<String> = Vec::new();
    push_value(&mut params, "a".to_owned());
    let supertraits: Vec<String> = Vec::new();
    let methods: Vec<TraitMethodInfo> = Vec::new();
    proof {
        assert(params.deep_view() =~= seq!["a"@]);
        assert(supertraits.deep_view() =~= Seq::empty());
        assert(methods.deep_view() =~= Seq::empty());
    }
    t.traits.insert(name.to_owned(), TraitInfo { type_params: params, supertraits, methods });
    add_plain_impls(name, t, targets);
}

fn add_builtin_traits(t: &mut TraitState)
    ensures
        final(t).deep_view() == with_builtin_traits(old(t).deep_view()),
{
    add_marker(t, "Num", &two_names("Int", "Float"));
    add_marker(t, "Semigroup", &two_names("String", "List"));
    add_marker(t, "Eq", &primitive_names());
    add_builtin_impl(&mut t.impls, "Show", "Tuple", no_needs());
    add_builtin_impl(&mut t.impls, "Debug", "Tuple", no_needs());
    add_builtin_impl(&mut t.impls, "Eq", "Tuple", no_needs());
    add_builtin_impl(&mut t.impls, "Eq", "Dict", two_variants("Eq", 0, "Eq", 1));
}

impl Checker {
    /// Registers what is built in: the traits that operators go by, `panic` and `todo`,
    /// lists and truth values.
    pub fn register_builtins(&mut self)
        requires
            old(self).next_var + 4 <= u32::MAX,
        ensures
            final(self).deep_view() == with_builtins(old(self).deep_view()),
    {
        broadcast use group_type_models;

        add_builtin_traits(&mut self.trait_state);
        let id = self.fresh_var();
        let panicking = Type::arrow(Type::string(), Type::Var(id));
        self.env.insert("panic".to_owned(), scheme_of_one(id, panicking));
        let id = self.fresh_var();
        let unfinished = Type::arrow(Type::unit(), Type::Var(id));
        self.env.insert("todo".to_owned(), scheme_of_one(id, unfinished));
        let id = self.fresh_var();
        self.constructors.insert("Nil".to_owned(), scheme_of_one(id, list_type(id)));
        let id = self.fresh_var();
        let cons = Type::arrow(Type::Var(id), Type::arrow(list_type(id), list_type(id)));
        self.constructors.insert("Cons".to_owned(), scheme_of_one(id, cons));
        self.constructors.insert("True".to_owned(), scheme_of_none(Type::bool()));
        self.constructors.insert("False".to_owned(), scheme_of_none(Type::bool()));
        self.adt_variants.insert("List".to_owned(), two_variants("Nil", 0, "Cons", 2));
        self.adt_variants.insert("Bool".to_owned(), two_variants("True", 0, "False", 0));
        add_arities_zero(&mut self.type_arity, &primitive_names());
        self.type_arity.insert("List".to_owned(), 1);
    }
}

/// The state in which nothing is known.
pub open spec fn empty_checker() -> CheckerModel {
    CheckerModel {
        env: EnvModel { bindings: Seq::empty(), def_ids: Seq::empty() },
        constructors: Seq::empty(),
        records: Seq::empty(),
        type_arity: Seq::empty(),
        type_param_kinds: Seq::empty(),
        type_aliases: Seq::empty(),
        adt_variants: Seq::empty(),
        effects: Seq::empty(),
        handlers: Seq::empty(),
        trait_state: TraitStateModel {
            traits: Seq::empty(),
            impls: Seq::empty(),
            where_bounds: Seq::empty(),
            where_bound_var_names: Seq::empty(),
            where_bound_trait_args: Seq::empty(),
            pending_constraints: Seq::empty(),
            routed_constraint_origins: Seq::empty(),
        },
        scope_map: empty_scope(),
        resolution: ResolutionModel {
            type_refs: Seq::empty(),
            trait_refs: Seq::empty(),
            effect_refs: Seq::empty(),
            impl_traits: Seq::empty(),
            impl_targets: Seq::empty(),
            handler_refs: Seq::empty(),
            handler_arms: Seq::empty(),
        },
        current_module: None,
        next_var: 0,
        var_kinds: Seq::empty(),
        lsp: LspModel {
            constructor_def_ids: Seq::empty(),
            node_spans: Seq::empty(),
            type_references: Seq::empty(),
            imported_docs: Seq::empty(),
            handler_arm_targets: Seq::empty(),
            fun_definitions: Seq::empty(),
            references: Seq::empty(),
        },
        exports: Seq::empty(),
        allow_bodyless_annotations: false,
        known_funs: Seq::empty(),
        collected_diagnostics: Seq::empty(),
        sub: Sub { map: Map::empty(), row_map: Map::empty() },
        type_param_cache: Seq::empty(),
        normalization_warnings: Seq::empty(),
        evidence: Seq::empty(),
        outer_named_type_vars: Seq::empty(),
        fun_type_param_vars: Seq::empty(),
        fun_type_constraints: Seq::empty(),
        trait_forward_row_vars: Seq::empty(),
        handler_funs: Seq::empty(),
        unused_effects: Seq::empty(),
        registered_canonical: Seq::empty(),
        loading: Seq::empty(),
        base_trait_impls: Seq::empty(),
        codegen_info: Seq::empty(),
        resume_type: None,
        resume_return_type: None,
    }
}

impl Checker {
    /// A checker that knows what is built in.
    pub fn new() -> (r: Self)
        ensures
            r.deep_view() == with_builtins(empty_checker()),
            acyclic(r.sub@),
    {
        let mut c = Checker {
            env: TypeEnv::new(),
            constructors: Table::new(),
            records: Table::new(),
            type_arity: Table::new(),
            type_param_kinds: Table::new(),
            type_aliases: Table::new(),
            adt_variants: Table::new(),
            effects: Table::new(),
            handlers: Table::new(),
            trait_state: TraitState {
                traits: Table::new(),
                impls: Table::new(),
                where_bounds: Table::new(),
                where_bound_var_names: Table::new(),
                where_bound_trait_args: Table::new(),
                pending_constraints: Vec::new(),
                routed_constraint_origins: Table::new(),
            },
            scope_map: ScopeMap::new(),
            resolution: Resolution {
                type_refs: Table::new(),
                trait_refs: Table::new(),
                effect_refs: Table::new(),
                impl_traits: Table::new(),
                impl_targets: Table::new(),
                handler_refs: Table::new(),
                handler_arms: Table::new(),
            },
            current_module: None,
            next_var: 0,
            var_kinds: Table::new(),
            lsp: LspState {
                constructor_def_ids: Table::new(),
                node_spans: Table::new(),
                type_references: Vec::new(),
                imported_docs: Table::new(),
                handler_arm_targets: Table::new(),
                fun_definitions: Vec::new(),
                references: Vec::new(),
            },
            exports: Table::new(),
            allow_bodyless_annotations: false,
            known_funs: Vec::new(),
            collected_diagnostics: Vec::new(),
            sub: Substitution::new(),
            type_param_cache: Table::new(),
            normalization_warnings: Vec::new(),
            evidence: Vec::new(),
            outer_named_type_vars: Table::new(),
            fun_type_param_vars: Table::new(),
            fun_type_constraints: Table::new(),
            trait_forward_row_vars: Vec::new(),
            handler_funs: Table::new(),
            unused_effects: Vec::new(),
            registered_canonical: Vec::new(),
            loading: Vec::new(),
            base_trait_impls: Table::new(),
            codegen_info: Table::new(),
            resume_type: None,
            resume_return_type: None,
        };
        proof {
            assert(c.known_funs.deep_view() =~= Seq::empty());
            assert(c.collected_diagnostics.deep_view() =~= Seq::empty());
            assert(c.normalization_warnings.deep_view() =~= Seq::empty());
            assert(c.evidence.deep_view() =~= Seq::empty());
            assert(c.trait_forward_row_vars.deep_view() =~= Seq::empty());
            assert(c.unused_effects.deep_view() =~= Seq::empty());
            assert(c.registered_canonical.deep_view() =~= Seq::empty());
            assert(c.loading.deep_view() =~= Seq::empty());
            assert(c.trait_state.pending_constraints.deep_view() =~= Seq::empty());
            assert(c.lsp.type_references.deep_view() =~= Seq::empty());
            assert(c.lsp.fun_definitions.deep_view() =~= Seq::empty());
            assert(c.lsp.references.deep_view() =~= Seq::empty());
            assert(c.deep_view() =~= empty_checker());
        }
        let ghost before = c.sub@;
        c.register_builtins();
        assert(c.deep_view().sub == before);
        c
    }
}

} // verus!
