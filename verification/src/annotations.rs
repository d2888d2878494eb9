//! Functions before their bodies are looked at: external ones, signatures, and the
//! variables that stand for the rest.

use vstd::prelude::*;
use crate::ast::{Annotation, Decl, EffectRef, NodeId, TraitBound};
use crate::bounds::args_fit;
use crate::canonical_exports::with_env_binding;
use crate::checker::{resolved_name, Checker, CheckerModel, LspModel};
use crate::diagnostics::{an_error_at, Diag, Diagnostic};
use crate::fun_types::{fun_type, function_type_with_innermost_effects};
use crate::schemes::{Scheme, SchemeModel};
use crate::seqs::{add_new, add_new_contains, add_new_one, push_new};
use crate::signatures::{complaints_fit, declared_constraints, declaring_keeps, Constraint};
use crate::table::{at_key, distinct_keys, has_key, put, put_then_get, Table};
use crate::text::{concat3, text_eq};
use crate::token::Span;
use crate::types::{EffectRow, Row, Ty, Type, group_type_models};
use crate::values::{push_value, reached, Dup};

verus! {

/// Whether an annotation of a name is there: `@external`.
pub open spec fn is_annotated(annotations: Seq<Annotation>, name: Seq<char>) -> bool {
    exists|i: int| 0 <= i < annotations.len() && (#[trigger] annotations[i]).name@ == name
}

/// Whether an annotation of a name is there.
pub fn has_annotation(annotations: &Vec<Annotation>, name: &str) -> (r: bool)
    ensures
        r == is_annotated(annotations@, name@),
{
    let mut i: usize = 0;
    while i < annotations.len()
        invariant
            i <= annotations.len(),
            forall|j: int| 0 <= j < i ==> (#[trigger] annotations@[j]).name@ != name@,
        decreases annotations.len() - i,
    {
        if text_eq(annotations[i].name.as_str(), name) {
            assert(annotations@[i as int].name@ == name@);
            return true;
        }
        i = i + 1;
    }
    false
}

/// The where clause of a signature, its types converted.
pub struct WhereParts {
    /// The variables that are known before it.
    pub vars: Vec<(String, u32)>,
    /// The variables that first occur in each of its bounds.
    pub introduced: Vec<Vec<(String, u32)>>,
    /// The further arguments of its traits.
    pub args: Vec<Vec<Vec<Type>>>,
    /// What is wrong with the kinds of its variables.
    pub complaints: Vec<Vec<Option<Diagnostic>>>,
}

#[verifier::ext_equal]
pub struct WherePartsModel {
    pub vars: Seq<(Seq<char>, u32)>,
    pub introduced: Seq<Seq<(Seq<char>, u32)>>,
    pub args: Seq<Seq<Seq<Ty>>>,
    pub complaints: Seq<Seq<Option<Diag>>>,
}

impl DeepView for WhereParts {
    type V = WherePartsModel;

    open spec fn deep_view(&self) -> WherePartsModel {
        WherePartsModel {
            vars: self.vars.deep_view(),
            introduced: self.introduced.deep_view(),
            args: self.args.deep_view(),
            complaints: self.complaints.deep_view(),
        }
    }
}

impl Dup for WhereParts {
    fn dup(&self) -> (r: Self) {
        WhereParts {
            vars: self.vars.dup(),
            introduced: self.introduced.dup(),
            args: self.args.dup(),
            complaints: self.complaints.dup(),
        }
    }
}

/// Whether the parts are those of a where clause.
pub open spec fn where_fits(bounds: Seq<TraitBound>, w: WherePartsModel) -> bool {
    &&& w.introduced.len() == bounds.len()
    &&& args_fit(bounds, w.args)
    &&& complaints_fit(bounds, w.complaints)
}

/// The constraints of a where clause, or the first complaint about it.
pub open spec fn where_constraints(
    c: CheckerModel,
    named: bool,
    span: Span,
    bounds: Seq<TraitBound>,
    w: WherePartsModel,
) -> (CheckerModel, Result<Seq<Constraint>, Diag>) {
    declared_constraints(
        c,
        named,
        span,
        ""@,
        w.vars,
        w.introduced,
        bounds,
        w.args,
        w.complaints,
        bounds.len(),
    )
}

/// The error about an external function with effects.
pub open spec fn external_effects(name: Seq<char>) -> Seq<char> {
    "external function '"@ + name
        + "' cannot declare effects with `needs` -- wrap it in a local function instead"@
}

/// The state with an external function, or what is wrong with it. `generalized` is
/// its type, generalized.
pub open spec fn external_registered(
    c: CheckerModel,
    name: Seq<char>,
    effects: Seq<EffectRef>,
    bounds: Seq<TraitBound>,
    span: Span,
    w: WherePartsModel,
    generalized: SchemeModel,
) -> (CheckerModel, Result<(), Diag>) {
    if effects.len() > 0 {
        (c, Err(an_error_at(span, external_effects(name))))
    } else {
        let declared = where_constraints(c, false, span, bounds, w);
        match declared.1 {
            Err(e) => (declared.0, Err(e)),
            Ok(constraints) => (
                CheckerModel {
                    env: with_env_binding(
                        declared.0.env,
                        name,
                        SchemeModel { constraints, ..generalized },
                        None,
                    ),
                    ..declared.0
                },
                Ok(()),
            ),
        }
    }
}

/// The signature of a function.
pub struct FunAnnotation {
    pub ty: Type,
    pub span: Span,
    pub effect_row: EffectRow,
}

#[verifier::ext_equal]
pub struct FunAnnotationModel {
    pub ty: Ty,
    pub span: Span,
    pub effect_row: Row,
}

impl DeepView for FunAnnotation {
    type V = FunAnnotationModel;

    open spec fn deep_view(&self) -> FunAnnotationModel {
        FunAnnotationModel {
            ty: self.ty.deep_view(),
            span: self.span.deep_view(),
            effect_row: self.effect_row.deep_view(),
        }
    }
}

impl Dup for FunAnnotation {
    fn dup(&self) -> (r: Self) {
        FunAnnotation {
            ty: self.ty.dup(),
            span: self.span.dup(),
            effect_row: self.effect_row.dup(),
        }
    }
}

/// The signatures of a program.
pub struct Annotations {
    pub types: Table<String, FunAnnotation>,
    /// The constraints of the signatures with a where clause.
    pub constraints: Table<String, Vec<(String, u32, Vec<Type>)>>,
}

#[verifier::ext_equal]
pub struct AnnotationsModel {
    pub types: Seq<(Seq<char>, FunAnnotationModel)>,
    pub constraints: Seq<(Seq<char>, Seq<(Seq<char>, u32, Seq<Ty>)>)>,
}

impl DeepView for Annotations {
    type V = AnnotationsModel;

    open spec fn deep_view(&self) -> AnnotationsModel {
        AnnotationsModel {
            types: self.types.order(),
            constraints: self.constraints.order(),
        }
    }
}

impl Dup for Annotations {
    fn dup(&self) -> (r: Self) {
        Annotations {
            types: self.types.dup(),
            constraints: self.constraints.dup(),
        }
    }
}

/// A signature, its types converted.
pub struct SignatureParts {
    pub params: Vec<Type>,
    pub return_type: Type,
    pub effect_row: EffectRow,
    /// The arguments of its effects.
    pub effect_args: Vec<Vec<Type>>,
    /// Its where clause.
    pub bounds: WhereParts,
    /// All the variables that it speaks of.
    pub vars: Vec<(String, u32)>,
    /// Its type, generalized.
    pub generalized: Scheme,
}

#[verifier::ext_equal]
pub struct SignaturePartsModel {
    pub params: Seq<Ty>,
    pub return_type: Ty,
    pub effect_row: Row,
    pub effect_args: Seq<Seq<Ty>>,
    pub bounds: WherePartsModel,
    pub vars: Seq<(Seq<char>, u32)>,
    pub generalized: SchemeModel,
}

impl DeepView for SignatureParts {
    type V = SignaturePartsModel;

    open spec fn deep_view(&self) -> SignaturePartsModel {
        SignaturePartsModel {
            params: self.params.deep_view(),
            return_type: self.return_type.deep_view(),
            effect_row: self.effect_row.deep_view(),
            effect_args: self.effect_args.deep_view(),
            bounds: self.bounds.deep_view(),
            vars: self.vars.deep_view(),
            generalized: self.generalized.deep_view(),
        }
    }
}

impl Dup for SignatureParts {
    fn dup(&self) -> (r: Self) {
        SignatureParts {
            params: self.params.dup(),
            return_type: self.return_type.dup(),
            effect_row: self.effect_row.dup(),
            effect_args: self.effect_args.dup(),
            bounds: self.bounds.dup(),
            vars: self.vars.dup(),
            generalized: self.generalized.dup(),
        }
    }
}

/// The effects of a signature that have arguments, for the first `n`.
pub open spec fn effects_with_args(
    c: CheckerModel,
    effects: Seq<EffectRef>,
    args: Seq<Seq<Ty>>,
    n: nat,
) -> Seq<(Seq<char>, Seq<Ty>)>
    decreases n,
{
    if n == 0 {
        Seq::empty()
    } else {
        let before = effects_with_args(c, effects, args, (n - 1) as nat);
        let e = effects[n - 1];
        if e.type_args@.len() == 0 {
            before
        } else {
            before.push((resolved_name(c.resolution.effect_refs, e.id, e.name@), args[n - 1]))
        }
    }
}

/// The state with what a signature says of effects.
pub open spec fn with_signature_effects(
    c: CheckerModel,
    name: Seq<char>,
    effects: Seq<EffectRef>,
    args: Seq<Seq<Ty>>,
) -> CheckerModel {
    let listed = effects_with_args(c, effects, args, effects.len());
    CheckerModel {
        known_funs: add_new(c.known_funs, seq![name]),
        fun_type_constraints: if listed.len() == 0 {
            c.fun_type_constraints
        } else {
            put(c.fun_type_constraints, name, listed)
        },
        ..c
    }
}

/// The state with a function of a known type.
pub open spec fn with_signature(
    c: CheckerModel,
    id: NodeId,
    public: bool,
    name: Seq<char>,
    name_span: Span,
    scheme: SchemeModel,
    vars: Seq<(Seq<char>, u32)>,
) -> CheckerModel {
    CheckerModel {
        env: with_env_binding(c.env, name, scheme, Some(id)),
        lsp: LspModel {
            node_spans: put(c.lsp.node_spans, id, name_span),
            fun_definitions: c.lsp.fun_definitions.push((id, name, name_span, public)),
            ..c.lsp
        },
        fun_type_param_vars: if vars.len() == 0 {
            c.fun_type_param_vars
        } else {
            put(c.fun_type_param_vars, name, vars)
        },
        ..c
    }
}

/// The signatures with one more.
pub open spec fn with_annotation(
    a: AnnotationsModel,
    name: Seq<char>,
    span: Span,
    p: SignaturePartsModel,
) -> AnnotationsModel {
    AnnotationsModel {
        types: put(
            a.types,
            name,
            FunAnnotationModel {
                ty: fun_type(p.params, p.return_type, p.effect_row),
                span,
                effect_row: p.effect_row,
            },
        ),
        ..a
    }
}

/// What a signature makes of the state and of the signatures so far, or what is
/// wrong with it.
pub open spec fn annotation_collected(
    c: CheckerModel,
    a: AnnotationsModel,
    decl: Decl,
    p: SignaturePartsModel,
) -> (CheckerModel, AnnotationsModel, Result<(), Diag>)
    recommends
        decl is FunSignature,
{
    let name = decl->FunSignature_name@;
    let span = decl->FunSignature_span;
    let bounds = decl->FunSignature_where_clause@;
    let a1 = with_annotation(a, name, span, p);
    let c1 = with_signature_effects(c, name, decl->FunSignature_effects@, p.effect_args);
    let declared = where_constraints(c1, true, span, bounds, p.bounds);
    match declared.1 {
        Err(e) => (declared.0, a1, Err(e)),
        Ok(constraints) => {
            let a2 = AnnotationsModel {
                constraints: if bounds.len() == 0 {
                    a1.constraints
                } else {
                    put(a1.constraints, name, constraints)
                },
                ..a1
            };
            let scheme = SchemeModel {
                constraints: match at_key(a2.constraints, name) {
                    Some(own) => own,
                    None => p.generalized.constraints,
                },
                ..p.generalized
            };
            (
                with_signature(
                    declared.0,
                    decl->FunSignature_id,
                    decl->FunSignature_public,
                    name,
                    decl->FunSignature_name_span,
                    scheme,
                    p.vars,
                ),
                a2,
                Ok(()),
            )
        },
    }
}

/// Whether the parts are those of a signature.
pub open spec fn signature_fits(decl: Decl, p: SignaturePartsModel) -> bool {
    &&& decl is FunSignature
    &&& p.effect_args.len() == decl->FunSignature_effects@.len()
    &&& where_fits(decl->FunSignature_where_clause@, p.bounds)
}

impl Checker {
    fn constraints_of_where(
        &mut self,
        named: bool,
        span: Span,
        bounds: &Vec<TraitBound>,
        w: &WhereParts,
    ) -> (r: Result<Vec<(String, u32, Vec<Type>)>, Diagnostic>)
        requires
            where_fits(bounds@, w.deep_view()),
        ensures
            (final(self).deep_view(), crate::values::outcome(r)) == where_constraints(
                old(self).deep_view(),
                named,
                span,
                bounds@,
                w.deep_view(),
            ),
    {
        assert(w.introduced.deep_view().len() == w.introduced.len());
        self.declare_constraints(
            named,
            span,
            "",
            &w.vars,
            &w.introduced,
            bounds,
            &w.args,
            &w.complaints,
        )
    }

    /// Registers an external function. `generalized` is its type, generalized.
    pub fn register_external(
        &mut self,
        name: &str,
        effects: &Vec<EffectRef>,
        bounds: &Vec<TraitBound>,
        span: Span,
        w: &WhereParts,
        generalized: Scheme,
    ) -> (r: Result<(), Diagnostic>)
        requires
            where_fits(bounds@, w.deep_view()),
        ensures
            (final(self).deep_view(), reached(r, ())) == external_registered(
                old(self).deep_view(),
                name@,
                effects@,
                bounds@,
                span,
                w.deep_view(),
                generalized.deep_view(),
            ),
    {
        if effects.len() > 0 {
            let message = concat3(
                "external function '",
                name,
                "' cannot declare effects with `needs` -- wrap it in a local function instead",
            );
            return Err(Diagnostic::error_at(span, message));
        }
        match self.constraints_of_where(false, span, bounds, w) {
            Err(e) => Err(e),
            Ok(constraints) => {
                let scheme = Scheme { forall: generalized.forall, constraints, ty: generalized.ty };
                self.env.insert(name.to_owned(), scheme);
                Ok(())
            },
        }
    }

    fn list_effects_with_args(&self, effects: &Vec<EffectRef>, args: &Vec<Vec<Type>>) -> (r: Vec<
        (String, Vec<Type>),
    >)
        requires
            args.len() == effects.len(),
        ensures
            r.deep_view() == effects_with_args(
                self.deep_view(),
                effects@,
                args.deep_view(),
                effects@.len(),
            ),
    {
        let ghost c = self.deep_view();
        let ghost all = args.deep_view();
        let mut out: Vec<(String, Vec<Type>)> = Vec::new();
        let mut i: usize = 0;
        assert(out.deep_view() =~= Seq::empty());
        while i < effects.len()
            invariant
                i <= effects.len(),
                args.len() == effects.len(),
                c == self.deep_view(),
                all == args.deep_view(),
                out.deep_view() == effects_with_args(c, effects@, all, i as nat),
            decreases effects.len() - i,
        {
            let e = &effects[i];
            if e.type_args.len() != 0 {
                assert(all[i as int] == args@[i as int].deep_view());
                let name = self.resolved_effect_name(e.id, e.name.as_str());
                push_value(&mut out, (name, args[i].dup()));
            }
            i = i + 1;
        }
        out
    }

    /// Takes up the signature of a function. The variables of its row and of its types
    /// are known; `parts` are its converted types.
    pub fn collect_annotation(
        &mut self,
        annotations: &mut Annotations,
        decl: &Decl,
        parts: &SignatureParts,
    ) -> (r: Result<(), Diagnostic>)
        requires
            signature_fits(*decl, parts.deep_view()),
        ensures
            (final(self).deep_view(), final(annotations).deep_view(), reached(r, ()))
                == annotation_collected(
                old(self).deep_view(),
                old(annotations).deep_view(),
                *decl,
                parts.deep_view(),
            ),
    {
        if let Decl::FunSignature {
            id,
            public,
            name,
            name_span,
            effects,
            where_clause,
            span,
            ..
        } = decl {
            assert(parts.effect_args.deep_view().len() == parts.effect_args.len());
            assert(parts.vars.deep_view().len() == parts.vars.len());
            let ty = function_type_with_innermost_effects(
                &parts.params,
                parts.return_type.dup(),
                parts.effect_row.dup(),
            );
            annotations.types.insert(
                name.clone(),
                FunAnnotation { ty, span: *span, effect_row: parts.effect_row.dup() },
            );
            let listed = self.list_effects_with_args(effects, &parts.effect_args);
            assert(listed.deep_view().len() == listed.len());
            proof {
                add_new_one(self.known_funs.deep_view(), name@);
            }
            push_new(&mut self.known_funs, name.clone());
            if listed.len() != 0 {
                self.fun_type_constraints.insert(name.clone(), listed);
            }
            let constraints = match self.constraints_of_where(
                true,
                *span,
                where_clause,
                &parts.bounds,
            ) {
                Ok(constraints) => constraints,
                Err(e) => {
                    return Err(e);
                },
            };
            if where_clause.len() != 0 {
                annotations.constraints.insert(name.clone(), constraints);
            }
            let own = match annotations.constraints.named(name.as_str()) {
                Some(own) => own.dup(),
                None => parts.generalized.constraints.dup(),
            };
            let scheme = Scheme {
                forall: parts.generalized.forall.dup(),
                constraints: own,
                ty: parts.generalized.ty.dup(),
            };
            self.env.insert_with_def(name.clone(), scheme, *id);
            self.lsp.node_spans.insert(*id, *name_span);
            push_value(&mut self.lsp.fun_definitions, (*id, name.clone(), *name_span, *public));
            if parts.vars.len() != 0 {
                self.fun_type_param_vars.insert(name.clone(), parts.vars.dup());
            }
        }
        Ok(())
    }
}

/// Functions with the variables that stand for them, and the next variable, which
/// may be more than there are.
#[verifier::ext_equal]
pub struct PreBound {
    pub c: CheckerModel,
    pub vars: Seq<(Seq<char>, Ty)>,
    pub next: nat,
}

/// The state with a mention of a definition.
pub open spec fn with_reference(
    c: CheckerModel,
    id: NodeId,
    span: Span,
    def: Option<NodeId>,
) -> CheckerModel {
    match def {
        Some(def) => CheckerModel {
            lsp: LspModel { references: c.lsp.references.push((id, span, def)), ..c.lsp },
            ..c
        },
        None => c,
    }
}

/// The state with a function whose type is a variable.
pub open spec fn with_unannotated(
    c: CheckerModel,
    id: NodeId,
    name: Seq<char>,
    name_span: Span,
    var: u32,
) -> CheckerModel {
    CheckerModel {
        env: with_env_binding(
            c.env,
            name,
            SchemeModel { forall: Seq::empty(), constraints: Seq::empty(), ty: Ty::Var(var) },
            Some(id),
        ),
        lsp: LspModel {
            node_spans: put(c.lsp.node_spans, id, name_span),
            fun_definitions: c.lsp.fun_definitions.push((id, name, name_span, false)),
            ..c.lsp
        },
        ..c
    }
}

/// The functions with that of a declaration: the first clause of a function gives it
/// a variable, and every clause refers to its signature.
pub open spec fn with_pre_bound(a: AnnotationsModel, p: PreBound, decl: Decl) -> PreBound {
    match decl {
        Decl::FunBinding { id, name, name_span, .. } => {
            let c = with_reference(p.c, id, name_span, at_key(p.c.env.def_ids, name@));
            if has_key(p.vars, name@) {
                PreBound { c, ..p }
            } else {
                let c1 = CheckerModel {
                    known_funs: add_new(c.known_funs, seq![name@]),
                    next_var: (p.next + 1) as u32,
                    ..c
                };
                PreBound {
                    c: if has_key(a.types, name@) {
                        c1
                    } else {
                        with_unannotated(c1, id, name@, name_span, p.next as u32)
                    },
                    vars: put(p.vars, name@, Ty::Var(p.next as u32)),
                    next: p.next + 1,
                }
            }
        },
        _ => p,
    }
}

pub open spec fn with_all_pre_bound(
    a: AnnotationsModel,
    acc: PreBound,
    items: Seq<Decl>,
) -> PreBound
    decreases items.len(),
{
    if items.len() == 0 {
        acc
    } else {
        with_pre_bound(a, with_all_pre_bound(a, acc, items.drop_last()), items.last())
    }
}

/// The functions of a program with the variables that stand for them.
pub open spec fn pre_bound(c: CheckerModel, program: Seq<Decl>, a: AnnotationsModel) -> PreBound {
    with_all_pre_bound(
        a,
        PreBound { c, vars: Seq::empty(), next: c.next_var as nat },
        program,
    )
}

proof fn pre_bound_within(a: AnnotationsModel, p: PreBound, program: Seq<Decl>, n: int)
    requires
        0 <= n <= program.len(),
    ensures
        with_all_pre_bound(a, p, program.take(n)).next <= with_all_pre_bound(a, p, program).next,
    decreases program.len(),
{
    if n < program.len() {
        assert(program.drop_last().take(n) =~= program.take(n));
        pre_bound_within(a, p, program.drop_last(), n);
    } else {
        assert(program.take(n) =~= program);
    }
}

impl Checker {
    /// Binds the functions of a program to variables, so that they can speak of one
    /// another whatever their order.
    pub fn pre_bind_functions(
        &mut self,
        program: &Vec<Decl>,
        annotations: &Annotations,
    ) -> (r: Table<
        String,
        Type,
    >)
        requires
            pre_bound(old(self).deep_view(), program@, annotations.deep_view()).next <= u32::MAX,
        ensures
            ({
                let done = pre_bound(old(self).deep_view(), program@, annotations.deep_view());
                &&& final(self).deep_view() == done.c
                &&& r.order() == done.vars
            }),
    {
        broadcast use group_type_models;

        let ghost c0 = self.deep_view();
        let ghost a = annotations.deep_view();
        let ghost p0 = PreBound { c: c0, vars: Seq::empty(), next: c0.next_var as nat };
        let ghost all = program@;
        let mut vars: Table<String, Type> = Table::new();
        let mut i: usize = 0;
        assert(all.take(0) =~= Seq::empty());
        while i < program.len()
            invariant
                i <= program.len(),
                all == program@,
                a == annotations.deep_view(),
                with_all_pre_bound(a, p0, all).next <= u32::MAX,
                self.deep_view() == with_all_pre_bound(a, p0, all.take(i as int)).c,
                vars.order() == with_all_pre_bound(a, p0, all.take(i as int)).vars,
                self.next_var == with_all_pre_bound(a, p0, all.take(i as int)).next,
            decreases program.len() - i,
        {
            broadcast use group_type_models;

            proof {
                assert(all.take(i + 1).drop_last() =~= all.take(i as int));
                assert(all.take(i + 1).last() == all[i as int]);
                pre_bound_within(a, p0, all, i + 1);
            }
            if let Decl::FunBinding { id, name, name_span, .. } = &program[i] {
                if let Some(def) = self.env.def_id(name.as_str()) {
                    push_value(&mut self.lsp.references, (*id, *name_span, def));
                }
                if !vars.has_name(name.as_str()) {
                    proof {
                        add_new_one(self.known_funs.deep_view(), name@);
                    }
                    push_new(&mut self.known_funs, name.clone());
                    let var = self.fresh_var();
                    vars.insert(name.clone(), Type::Var(var));
                    if !annotations.types.has_name(name.as_str()) {
                        let none: Vec<u32> = Vec::new();
                        let free: Vec<(String, u32, Vec<Type>)> = Vec::new();
                        assert(none.deep_view() =~= Seq::empty());
                        assert(free.deep_view() =~= Seq::empty());
                        let scheme = Scheme {
                            forall: none,
                            constraints: free,
                            ty: Type::Var(var),
                        };
                        self.env.insert_with_def(name.clone(), scheme, *id);
                        self.lsp.node_spans.insert(*id, *name_span);
                        push_value(
                            &mut self.lsp.fun_definitions,
                            (*id, name.clone(), *name_span, false),
                        );
                    }
                }
            }
            i = i + 1;
        }
        assert(all.take(i as int) =~= all);
        vars
    }
}

/// Every function of a program has a variable before any body is looked at.
pub proof fn functions_are_bound(
    c: CheckerModel,
    program: Seq<Decl>,
    a: AnnotationsModel,
    i: int,
)
    requires
        0 <= i < program.len(),
        program[i] is FunBinding,
    ensures
        has_key(pre_bound(c, program, a).vars, program[i]->FunBinding_name@),
    decreases program.len(),
{
    let before = pre_bound(c, program.drop_last(), a);
    if i < program.len() - 1 {
        functions_are_bound(c, program.drop_last(), a, i);
        if let Decl::FunBinding { name, .. } = program.last() {
            crate::traits::key_is_put(
                before.vars,
                name@,
                Ty::Var(before.next as u32),
                program[i]->FunBinding_name@,
            );
        }
    } else {
        let name = program.last()->FunBinding_name@;
        crate::traits::key_is_put(before.vars, name, Ty::Var(before.next as u32), name);
    }
}

/// An annotated function is bound to the scheme of its signature, with the constraints
/// of its where clause, and its annotation has the type of the signature.
pub proof fn signatures_are_bound(
    c: CheckerModel,
    a: AnnotationsModel,
    decl: Decl,
    p: SignaturePartsModel,
)
    requires
        signature_fits(decl, p),
        distinct_keys(c.env.bindings),
        distinct_keys(a.types),
        distinct_keys(a.constraints),
        annotation_collected(c, a, decl, p).2 is Ok,
    ensures
        ({
            let (after, annotations, _) = annotation_collected(c, a, decl, p);
            let name = decl->FunSignature_name@;
            let bounds = decl->FunSignature_where_clause@;
            let scheme = at_key(after.env.bindings, name)->0;
            let own = at_key(annotations.types, name)->0;
            &&& at_key(after.env.bindings, name) is Some
            &&& scheme.forall == p.generalized.forall
            &&& scheme.ty == p.generalized.ty
            &&& bounds.len() > 0 ==> Ok::<Seq<Constraint>, Diag>(scheme.constraints)
                == where_constraints(
                with_signature_effects(c, name, decl->FunSignature_effects@, p.effect_args),
                true,
                decl->FunSignature_span,
                bounds,
                p.bounds,
            ).1
            &&& bounds.len() > 0 ==> at_key(annotations.constraints, name) == Some(
                scheme.constraints,
            )
            &&& at_key(annotations.types, name) is Some
            &&& own.ty == fun_type(p.params, p.return_type, p.effect_row)
            &&& own.effect_row == p.effect_row
            &&& own.span == decl->FunSignature_span
            &&& after.known_funs.contains(name)
        }),
{
    let name = decl->FunSignature_name@;
    let span = decl->FunSignature_span;
    let bounds = decl->FunSignature_where_clause@;
    let c1 = with_signature_effects(c, name, decl->FunSignature_effects@, p.effect_args);
    let declared = where_constraints(c1, true, span, bounds, p.bounds);
    declaring_keeps(
        c1,
        true,
        span,
        ""@,
        p.bounds.vars,
        p.bounds.introduced,
        bounds,
        p.bounds.args,
        p.bounds.complaints,
        bounds.len(),
    );
    let constraints = declared.1->Ok_0;
    let own = FunAnnotationModel {
        ty: fun_type(p.params, p.return_type, p.effect_row),
        span,
        effect_row: p.effect_row,
    };
    put_then_get(a.types, name, own, name);
    put_then_get(a.constraints, name, constraints, name);
    let a2 = annotation_collected(c, a, decl, p).1;
    let scheme = SchemeModel {
        constraints: match at_key(a2.constraints, name) {
            Some(own) => own,
            None => p.generalized.constraints,
        },
        ..p.generalized
    };
    put_then_get(c.env.bindings, name, scheme, name);
    add_new_contains(c.known_funs, seq![name], name);
    assert(seq![name][0] == name);
}

/// An external function is bound to its type, with the constraints of its where clause,
/// and may not declare effects.
pub proof fn external_functions_are_pure(
    c: CheckerModel,
    name: Seq<char>,
    effects: Seq<EffectRef>,
    bounds: Seq<TraitBound>,
    span: Span,
    w: WherePartsModel,
    generalized: SchemeModel,
)
    requires
        distinct_keys(c.env.bindings),
    ensures
        ({
            let r = external_registered(c, name, effects, bounds, span, w, generalized);
            let found = at_key(r.0.env.bindings, name);
            &&& effects.len() > 0 ==> r.1 is Err && r.0 == c
            &&& r.1 is Ok ==> {
                &&& found is Some
                &&& found->0.ty == generalized.ty
                &&& found->0.forall == generalized.forall
                &&& Ok::<Seq<Constraint>, Diag>(found->0.constraints) == where_constraints(
                    c,
                    false,
                    span,
                    bounds,
                    w,
                ).1
            }
        }),
{
    if effects.len() == 0 {
        let declared = where_constraints(c, false, span, bounds, w);
        declaring_keeps(
            c,
            false,
            span,
            ""@,
            w.vars,
            w.introduced,
            bounds,
            w.args,
            w.complaints,
            bounds.len(),
        );
        if let Ok(constraints) = declared.1 {
            put_then_get(
                c.env.bindings,
                name,
                SchemeModel { constraints, ..generalized },
                name,
            );
        }
    }
}

} // verus!
