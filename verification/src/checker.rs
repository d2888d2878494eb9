//! The state of checking a module.

use vstd::prelude::*;
use crate::ast::{Kind, NodeId};
use crate::codegen_info::{CodegenModel, ModuleCodegenInfo};
use crate::diagnostics::{Diag, Diagnostic};
use crate::infos::{
    EffectDefInfo, EffectModel, ExportsModel, HandlerInfo, HandlerModel, ImplInfo, ImplModel,
    ModuleExports, RecordInfo, RecordModel, TraitInfo, TraitModel,
};
use crate::schemes::{AliasModel, EnvModel, Scheme, SchemeModel, TypeAliasInfo, TypeEnv};
use crate::scope::{ScopeMap, ScopeModel};
use crate::subst::{Sub, Substitution};
use crate::table::{at_key, put, Table};
use crate::text::{dot_join, dotted};
use crate::token::Span;
use crate::types::{Ty, Type};
use crate::values::Dup;

verus! {

/// What the names at the nodes of a program stand for.
pub struct Resolution {
    pub type_refs: Table<NodeId, String>,
    pub trait_refs: Table<NodeId, String>,
    pub effect_refs: Table<NodeId, String>,
    /// The trait of each impl.
    pub impl_traits: Table<NodeId, String>,
    /// The target type of each impl.
    pub impl_targets: Table<NodeId, String>,
    pub handler_refs: Table<NodeId, String>,
    /// The effect of each handler arm.
    pub handler_arms: Table<NodeId, String>,
}

#[verifier::ext_equal]
pub struct ResolutionModel {
    pub type_refs: Seq<(NodeId, Seq<char>)>,
    pub trait_refs: Seq<(NodeId, Seq<char>)>,
    pub effect_refs: Seq<(NodeId, Seq<char>)>,
    pub impl_traits: Seq<(NodeId, Seq<char>)>,
    pub impl_targets: Seq<(NodeId, Seq<char>)>,
    pub handler_refs: Seq<(NodeId, Seq<char>)>,
    pub handler_arms: Seq<(NodeId, Seq<char>)>,
}

impl DeepView for Resolution {
    type V = ResolutionModel;

    open spec fn deep_view(&self) -> ResolutionModel {
        ResolutionModel {
            type_refs: self.type_refs.order(),
            trait_refs: self.trait_refs.order(),
            effect_refs: self.effect_refs.order(),
            impl_traits: self.impl_traits.order(),
            impl_targets: self.impl_targets.order(),
            handler_refs: self.handler_refs.order(),
            handler_arms: self.handler_arms.order(),
        }
    }
}

impl Dup for Resolution {
    fn dup(&self) -> (r: Self) {
        Resolution {
            type_refs: self.type_refs.dup(),
            trait_refs: self.trait_refs.dup(),
            effect_refs: self.effect_refs.dup(),
            impl_traits: self.impl_traits.dup(),
            impl_targets: self.impl_targets.dup(),
            handler_refs: self.handler_refs.dup(),
            handler_arms: self.handler_arms.dup(),
        }
    }
}

/// A trait that a type must have, to be settled at the end of the module.
#[derive(Debug)]
pub struct PendingConstraint {
    pub trait_name: String,
    pub trait_type_args: Vec<Type>,
    pub ty: Type,
    pub span: Span,
    pub node_id: NodeId,
}

#[verifier::ext_equal]
pub struct PendingModel {
    pub trait_name: Seq<char>,
    pub trait_type_args: Seq<Ty>,
    pub ty: Ty,
    pub span: Span,
    pub node_id: NodeId,
}

impl DeepView for PendingConstraint {
    type V = PendingModel;

    open spec fn deep_view(&self) -> PendingModel {
        PendingModel {
            trait_name: self.trait_name.deep_view(),
            trait_type_args: self.trait_type_args.deep_view(),
            ty: self.ty.deep_view(),
            span: self.span.deep_view(),
            node_id: self.node_id.deep_view(),
        }
    }
}

impl Dup for PendingConstraint {
    fn dup(&self) -> (r: Self) {
        PendingConstraint {
            trait_name: self.trait_name.dup(),
            trait_type_args: self.trait_type_args.dup(),
            ty: self.ty.dup(),
            span: self.span.dup(),
            node_id: self.node_id.dup(),
        }
    }
}

/// The deriving clause that a constraint goes back to.
#[derive(Debug)]
pub struct RoutedOrigin {
    pub trait_name: String,
    pub target_type: String,
    pub deriving_span: Span,
}

#[verifier::ext_equal]
pub struct RoutedModel {
    pub trait_name: Seq<char>,
    pub target_type: Seq<char>,
    pub deriving_span: Span,
}

impl DeepView for RoutedOrigin {
    type V = RoutedModel;

    open spec fn deep_view(&self) -> RoutedModel {
        RoutedModel {
            trait_name: self.trait_name.deep_view(),
            target_type: self.target_type.deep_view(),
            deriving_span: self.deriving_span.deep_view(),
        }
    }
}

impl Dup for RoutedOrigin {
    fn dup(&self) -> (r: Self) {
        RoutedOrigin {
            trait_name: self.trait_name.dup(),
            target_type: self.target_type.dup(),
            deriving_span: self.deriving_span.dup(),
        }
    }
}

/// How a trait constraint was settled.
#[derive(Debug)]
pub struct TraitEvidence {
    pub node_id: NodeId,
    pub trait_name: String,
    /// The named type that has the trait, with its arguments.
    pub resolved_type: Option<(String, Vec<Type>)>,
    /// The bound variable that has the trait.
    pub type_var_name: Option<String>,
    pub trait_type_args: Vec<Type>,
}

#[verifier::ext_equal]
pub struct EvidenceModel {
    pub node_id: NodeId,
    pub trait_name: Seq<char>,
    pub resolved_type: Option<(Seq<char>, Seq<Ty>)>,
    pub type_var_name: Option<Seq<char>>,
    pub trait_type_args: Seq<Ty>,
}

impl DeepView for TraitEvidence {
    type V = EvidenceModel;

    open spec fn deep_view(&self) -> EvidenceModel {
        EvidenceModel {
            node_id: self.node_id.deep_view(),
            trait_name: self.trait_name.deep_view(),
            resolved_type: self.resolved_type.deep_view(),
            type_var_name: self.type_var_name.deep_view(),
            trait_type_args: self.trait_type_args.deep_view(),
        }
    }
}

impl Dup for TraitEvidence {
    fn dup(&self) -> (r: Self) {
        TraitEvidence {
            node_id: self.node_id.dup(),
            trait_name: self.trait_name.dup(),
            resolved_type: self.resolved_type.dup(),
            type_var_name: self.type_var_name.dup(),
            trait_type_args: self.trait_type_args.dup(),
        }
    }
}

/// Traits, impls and the constraints under way.
pub struct TraitState {
    pub traits: Table<String, TraitInfo>,
    pub impls: Table<(String, Vec<String>, String), ImplInfo>,
    /// The traits that a variable is known to have.
    pub where_bounds: Table<u32, Vec<String>>,
    /// The source names of bound variables.
    pub where_bound_var_names: Table<u32, String>,
    /// The further arguments of a trait that a variable is known to have.
    pub where_bound_trait_args: Table<(u32, String), Vec<Type>>,
    pub pending_constraints: Vec<PendingConstraint>,
    /// The deriving clauses that constraints go back to.
    pub routed_constraint_origins: Table<NodeId, RoutedOrigin>,
}

#[verifier::ext_equal]
pub struct TraitStateModel {
    pub traits: Seq<(Seq<char>, TraitModel)>,
    pub impls: Seq<((Seq<char>, Seq<Seq<char>>, Seq<char>), ImplModel)>,
    pub where_bounds: Seq<(u32, Seq<Seq<char>>)>,
    pub where_bound_var_names: Seq<(u32, Seq<char>)>,
    pub where_bound_trait_args: Seq<((u32, Seq<char>), Seq<Ty>)>,
    pub pending_constraints: Seq<PendingModel>,
    pub routed_constraint_origins: Seq<(NodeId, RoutedModel)>,
}

impl DeepView for TraitState {
    type V = TraitStateModel;

    open spec fn deep_view(&self) -> TraitStateModel {
        TraitStateModel {
            traits: self.traits.order(),
            impls: self.impls.order(),
            where_bounds: self.where_bounds.order(),
            where_bound_var_names: self.where_bound_var_names.order(),
            where_bound_trait_args: self.where_bound_trait_args.order(),
            pending_constraints: self.pending_constraints.deep_view(),
            routed_constraint_origins: self.routed_constraint_origins.order(),
        }
    }
}

impl Dup for TraitState {
    fn dup(&self) -> (r: Self) {
        TraitState {
            traits: self.traits.dup(),
            impls: self.impls.dup(),
            where_bounds: self.where_bounds.dup(),
            where_bound_var_names: self.where_bound_var_names.dup(),
            where_bound_trait_args: self.where_bound_trait_args.dup(),
            pending_constraints: self.pending_constraints.dup(),
            routed_constraint_origins: self.routed_constraint_origins.dup(),
        }
    }
}

/// What an editor asks for.
pub struct LspState {
    pub constructor_def_ids: Table<String, NodeId>,
    pub node_spans: Table<NodeId, Span>,
    pub type_references: Vec<(Span, String)>,
    pub imported_docs: Table<String, Vec<String>>,
    /// Where a handler arm stands -> where its operation is declared, and in which
    /// module.
    pub handler_arm_targets: Table<Span, (Span, Option<String>)>,
    /// Functions with their places, and whether they are public.
    pub fun_definitions: Vec<(NodeId, String, Span, bool)>,
    /// Where a definition is named, and which one.
    pub references: Vec<(NodeId, Span, NodeId)>,
}

#[verifier::ext_equal]
pub struct LspModel {
    pub constructor_def_ids: Seq<(Seq<char>, NodeId)>,
    pub node_spans: Seq<(NodeId, Span)>,
    pub type_references: Seq<(Span, Seq<char>)>,
    pub imported_docs: Seq<(Seq<char>, Seq<Seq<char>>)>,
    pub handler_arm_targets: Seq<(Span, (Span, Option<Seq<char>>))>,
    pub fun_definitions: Seq<(NodeId, Seq<char>, Span, bool)>,
    pub references: Seq<(NodeId, Span, NodeId)>,
}

impl DeepView for LspState {
    type V = LspModel;

    open spec fn deep_view(&self) -> LspModel {
        LspModel {
            constructor_def_ids: self.constructor_def_ids.order(),
            node_spans: self.node_spans.order(),
            type_references: self.type_references.deep_view(),
            imported_docs: self.imported_docs.order(),
            handler_arm_targets: self.handler_arm_targets.order(),
            fun_definitions: self.fun_definitions.deep_view(),
            references: self.references.deep_view(),
        }
    }
}

impl Dup for LspState {
    fn dup(&self) -> (r: Self) {
        LspState {
            constructor_def_ids: self.constructor_def_ids.dup(),
            node_spans: self.node_spans.dup(),
            type_references: self.type_references.dup(),
            imported_docs: self.imported_docs.dup(),
            handler_arm_targets: self.handler_arm_targets.dup(),
            fun_definitions: self.fun_definitions.dup(),
            references: self.references.dup(),
        }
    }
}

/// The state of checking a module.
pub struct Checker {
    pub env: TypeEnv,
    pub constructors: Table<String, Scheme>,
    pub records: Table<String, RecordInfo>,
    pub type_arity: Table<String, usize>,
    pub type_param_kinds: Table<String, Vec<Kind>>,
    pub type_aliases: Table<String, TypeAliasInfo>,
    /// Type -> its constructors with their numbers of fields.
    pub adt_variants: Table<String, Vec<(String, usize)>>,
    pub effects: Table<String, EffectDefInfo>,
    pub handlers: Table<String, HandlerInfo>,
    pub trait_state: TraitState,
    pub scope_map: ScopeMap,
    pub resolution: Resolution,
    pub current_module: Option<String>,
    /// The next variable to be handed out.
    pub next_var: u32,
    pub var_kinds: Table<u32, Kind>,
    pub lsp: LspState,
    /// The exports of the modules that are loaded.
    pub exports: Table<String, ModuleExports>,
    /// Whether signatures may stand without a body.
    pub allow_bodyless_annotations: bool,
    /// Functions that are known to have effects.
    pub known_funs: Vec<String>,
    pub collected_diagnostics: Vec<Diagnostic>,
    pub sub: Substitution,
    /// Effect -> the variables of its parameters within the current function.
    pub type_param_cache: Table<String, Table<u32, Type>>,
    /// The effect names that were warned about.
    pub normalization_warnings: Vec<String>,
    pub evidence: Vec<TraitEvidence>,
    /// The type variables in scope by their source names.
    pub outer_named_type_vars: Table<String, u32>,
    /// Function -> the type variables of its signature by their source names.
    pub fun_type_param_vars: Table<String, Vec<(String, u32)>>,
    /// Function -> the effects of its signature that have arguments.
    pub fun_type_constraints: Table<String, Vec<(String, Vec<Type>)>>,
    /// Variables whose impls may have any effects, with the traits.
    pub trait_forward_row_vars: Vec<(u32, String)>,
    /// Functions that give back handlers.
    pub handler_funs: Table<String, HandlerInfo>,
    /// Effects that functions declare and do not have.
    pub unused_effects: Vec<(Span, String, Vec<String>)>,
    /// The modules whose exports are known under their canonical names.
    pub registered_canonical: Vec<String>,
    /// The modules that are being loaded.
    pub loading: Vec<String>,
    /// The impls of the standard modules.
    pub base_trait_impls: Table<(String, Vec<String>, String), ImplInfo>,
    /// What code generation needs to know of the modules that are loaded.
    pub codegen_info: Table<String, ModuleCodegenInfo>,
    /// The type of the value that an arm of a handler resumes with.
    pub resume_type: Option<Type>,
    /// The type that resuming gives back.
    pub resume_return_type: Option<Type>,
}

#[verifier::ext_equal]
pub struct CheckerModel {
    pub env: EnvModel,
    pub constructors: Seq<(Seq<char>, SchemeModel)>,
    pub records: Seq<(Seq<char>, RecordModel)>,
    pub type_arity: Seq<(Seq<char>, usize)>,
    pub type_param_kinds: Seq<(Seq<char>, Seq<Kind>)>,
    pub type_aliases: Seq<(Seq<char>, AliasModel)>,
    pub adt_variants: Seq<(Seq<char>, Seq<(Seq<char>, usize)>)>,
    pub effects: Seq<(Seq<char>, EffectModel)>,
    pub handlers: Seq<(Seq<char>, HandlerModel)>,
    pub trait_state: TraitStateModel,
    pub scope_map: ScopeModel,
    pub resolution: ResolutionModel,
    pub current_module: Option<Seq<char>>,
    pub next_var: u32,
    pub var_kinds: Seq<(u32, Kind)>,
    pub lsp: LspModel,
    pub exports: Seq<(Seq<char>, ExportsModel)>,
    pub allow_bodyless_annotations: bool,
    pub known_funs: Seq<Seq<char>>,
    pub collected_diagnostics: Seq<Diag>,
    pub sub: Sub,
    pub type_param_cache: Seq<(Seq<char>, Map<u32, Ty>)>,
    pub normalization_warnings: Seq<Seq<char>>,
    pub evidence: Seq<EvidenceModel>,
    pub outer_named_type_vars: Seq<(Seq<char>, u32)>,
    pub fun_type_param_vars: Seq<(Seq<char>, Seq<(Seq<char>, u32)>)>,
    pub fun_type_constraints: Seq<(Seq<char>, Seq<(Seq<char>, Seq<Ty>)>)>,
    pub trait_forward_row_vars: Seq<(u32, Seq<char>)>,
    pub handler_funs: Seq<(Seq<char>, HandlerModel)>,
    pub unused_effects: Seq<(Span, Seq<char>, Seq<Seq<char>>)>,
    pub registered_canonical: Seq<Seq<char>>,
    pub loading: Seq<Seq<char>>,
    pub base_trait_impls: Seq<((Seq<char>, Seq<Seq<char>>, Seq<char>), ImplModel)>,
    pub codegen_info: Seq<(Seq<char>, CodegenModel)>,
    pub resume_type: Option<Ty>,
    pub resume_return_type: Option<Ty>,
}

impl DeepView for Checker {
    type V = CheckerModel;

    open spec fn deep_view(&self) -> CheckerModel {
        CheckerModel {
            env: self.env.deep_view(),
            constructors: self.constructors.order(),
            records: self.records.order(),
            type_arity: self.type_arity.order(),
            type_param_kinds: self.type_param_kinds.order(),
            type_aliases: self.type_aliases.order(),
            adt_variants: self.adt_variants.order(),
            effects: self.effects.order(),
            handlers: self.handlers.order(),
            trait_state: self.trait_state.deep_view(),
            scope_map: self.scope_map.deep_view(),
            resolution: self.resolution.deep_view(),
            current_module: self.current_module.deep_view(),
            next_var: self.next_var.deep_view(),
            var_kinds: self.var_kinds.order(),
            lsp: self.lsp.deep_view(),
            exports: self.exports.order(),
            allow_bodyless_annotations: self.allow_bodyless_annotations.deep_view(),
            known_funs: self.known_funs.deep_view(),
            collected_diagnostics: self.collected_diagnostics.deep_view(),
            sub: self.sub.deep_view(),
            type_param_cache: self.type_param_cache.order(),
            normalization_warnings: self.normalization_warnings.deep_view(),
            evidence: self.evidence.deep_view(),
            outer_named_type_vars: self.outer_named_type_vars.order(),
            fun_type_param_vars: self.fun_type_param_vars.order(),
            fun_type_constraints: self.fun_type_constraints.order(),
            trait_forward_row_vars: self.trait_forward_row_vars.deep_view(),
            handler_funs: self.handler_funs.order(),
            unused_effects: self.unused_effects.deep_view(),
            registered_canonical: self.registered_canonical.deep_view(),
            loading: self.loading.deep_view(),
            base_trait_impls: self.base_trait_impls.order(),
            codegen_info: self.codegen_info.order(),
            resume_type: self.resume_type.deep_view(),
            resume_return_type: self.resume_return_type.deep_view(),
        }
    }
}

impl Dup for Checker {
    fn dup(&self) -> (r: Self) {
        Checker {
            env: self.env.dup(),
            constructors: self.constructors.dup(),
            records: self.records.dup(),
            type_arity: self.type_arity.dup(),
            type_param_kinds: self.type_param_kinds.dup(),
            type_aliases: self.type_aliases.dup(),
            adt_variants: self.adt_variants.dup(),
            effects: self.effects.dup(),
            handlers: self.handlers.dup(),
            trait_state: self.trait_state.dup(),
            scope_map: self.scope_map.dup(),
            resolution: self.resolution.dup(),
            current_module: self.current_module.dup(),
            next_var: self.next_var.dup(),
            var_kinds: self.var_kinds.dup(),
            lsp: self.lsp.dup(),
            exports: self.exports.dup(),
            allow_bodyless_annotations: self.allow_bodyless_annotations.dup(),
            known_funs: self.known_funs.dup(),
            collected_diagnostics: self.collected_diagnostics.dup(),
            sub: self.sub.dup(),
            type_param_cache: self.type_param_cache.dup(),
            normalization_warnings: self.normalization_warnings.dup(),
            evidence: self.evidence.dup(),
            outer_named_type_vars: self.outer_named_type_vars.dup(),
            fun_type_param_vars: self.fun_type_param_vars.dup(),
            fun_type_constraints: self.fun_type_constraints.dup(),
            trait_forward_row_vars: self.trait_forward_row_vars.dup(),
            handler_funs: self.handler_funs.dup(),
            unused_effects: self.unused_effects.dup(),
            registered_canonical: self.registered_canonical.dup(),
            loading: self.loading.dup(),
            base_trait_impls: self.base_trait_impls.dup(),
            codegen_info: self.codegen_info.dup(),
            resume_type: self.resume_type.dup(),
            resume_return_type: self.resume_return_type.dup(),
        }
    }
}

/// The canonical name of something that the module declares: qualified with the
/// module's name, where it has one.
pub open spec fn local_name(current_module: Option<Seq<char>>, name: Seq<char>) -> Seq<char> {
    match current_module {
        Some(module) => dotted(module, name),
        None => name,
    }
}

/// What a node stands for: what name resolution found, or else the name itself.
pub open spec fn resolved_name(
    refs: Seq<(NodeId, Seq<char>)>,
    id: NodeId,
    name: Seq<char>,
) -> Seq<char> {
    match at_key(refs, id) {
        Some(canonical) => canonical,
        None => name,
    }
}

fn name_at(refs: &Table<NodeId, String>, id: NodeId, name: &str) -> (r: String)
    ensures
        r@ == resolved_name(refs.order(), id, name@),
{
    match refs.get(&id) {
        Some(canonical) => canonical.clone(),
        None => name.to_owned(),
    }
}

impl Resolution {
    /// The canonical name of the type at a node, if it was resolved.
    pub fn type_ref(&self, id: NodeId) -> (r: Option<&String>)
        ensures
            r.deep_view() == at_key(self.deep_view().type_refs, id),
    {
        self.type_refs.get(&id)
    }
}

impl Checker {
    /// The canonical name of something that the module declares.
    pub fn canonical_name(&self, name: &str) -> (r: String)
        ensures
            r@ == local_name(self.deep_view().current_module, name@),
    {
        match &self.current_module {
            Some(module) => dot_join(module.as_str(), name),
            None => name.to_owned(),
        }
    }

    /// What the type name at a node stands for.
    pub fn resolved_type_name(&self, id: NodeId, name: &str) -> (r: String)
        ensures
            r@ == resolved_name(self.deep_view().resolution.type_refs, id, name@),
    {
        name_at(&self.resolution.type_refs, id, name)
    }

    /// What the trait name at a node stands for.
    pub fn resolved_trait_name_at(&self, id: NodeId, name: &str) -> (r: String)
        ensures
            r@ == resolved_name(self.deep_view().resolution.trait_refs, id, name@),
    {
        name_at(&self.resolution.trait_refs, id, name)
    }

    /// What the effect name at a node stands for.
    pub fn resolved_effect_name(&self, id: NodeId, name: &str) -> (r: String)
        ensures
            r@ == resolved_name(self.deep_view().resolution.effect_refs, id, name@),
    {
        name_at(&self.resolution.effect_refs, id, name)
    }

    /// The trait of an impl.
    pub fn resolved_impl_trait_name(&self, id: NodeId, name: &str) -> (r: String)
        ensures
            r@ == resolved_name(self.deep_view().resolution.impl_traits, id, name@),
    {
        name_at(&self.resolution.impl_traits, id, name)
    }

    /// The target type of an impl.
    pub fn resolved_impl_target_type_name(&self, id: NodeId, name: &str) -> (r: String)
        ensures
            r@ == resolved_name(self.deep_view().resolution.impl_targets, id, name@),
    {
        name_at(&self.resolution.impl_targets, id, name)
    }

    /// What the handler name at a node stands for.
    pub fn resolved_handler_name(&self, id: NodeId, name: &str) -> (r: String)
        ensures
            r@ == resolved_name(self.deep_view().resolution.handler_refs, id, name@),
    {
        name_at(&self.resolution.handler_refs, id, name)
    }

    /// A variable that has not been handed out before.
    pub fn fresh_var(&mut self) -> (id: u32)
        requires
            old(self).next_var < u32::MAX,
        ensures
            id == old(self).next_var,
            final(self).deep_view() == (CheckerModel {
                next_var: (old(self).next_var + 1) as u32,
                ..old(self).deep_view()
            }),
    {
        let id = self.next_var;
        self.next_var = id + 1;
        id
    }

    /// A variable of a kind that has not been handed out before.
    pub fn fresh_var_of_kind(&mut self, kind: Kind) -> (id: u32)
        requires
            old(self).next_var < u32::MAX,
        ensures
            id == old(self).next_var,
            final(self).deep_view() == (CheckerModel {
                next_var: (old(self).next_var + 1) as u32,
                var_kinds: put(old(self).deep_view().var_kinds, id, kind),
                ..old(self).deep_view()
            }),
    {
        let id = self.next_var;
        self.next_var = id + 1;
        self.var_kinds.insert(id, kind);
        id
    }
}

} // verus!
