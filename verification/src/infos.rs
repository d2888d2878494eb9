//! What is known of the declarations of a module once they are registered, and
//! what a module makes known to others.

use vstd::prelude::*;
use crate::ast::{Kind, NodeId};
use crate::schemes::{AliasModel, Scheme, SchemeModel, TypeAliasInfo};
use crate::scope::{BuilderModel, RecordBuilderInfo};
use crate::table::Table;
use crate::token::Span;
use crate::types::{EffectRow, Row, Ty, Type};
use crate::values::Dup;

verus! {

/// What a trait method permits its impls to do.
#[derive(Debug)]
pub struct TraitMethodEffectSig {
    /// The effects along its type, in order.
    pub effects: Vec<String>,
    /// Whether any effect is permitted.
    pub is_open_row: bool,
    /// The number of its parameters.
    pub user_arity: usize,
}

#[verifier::ext_equal]
pub struct EffectSigModel {
    pub effects: Seq<Seq<char>>,
    pub is_open_row: bool,
    pub user_arity: usize,
}

impl DeepView for TraitMethodEffectSig {
    type V = EffectSigModel;

    open spec fn deep_view(&self) -> EffectSigModel {
        EffectSigModel {
            effects: self.effects.deep_view(),
            is_open_row: self.is_open_row.deep_view(),
            user_arity: self.user_arity.deep_view(),
        }
    }
}

impl Dup for TraitMethodEffectSig {
    fn dup(&self) -> (r: Self) {
        TraitMethodEffectSig {
            effects: self.effects.dup(),
            is_open_row: self.is_open_row.dup(),
            user_arity: self.user_arity.dup(),
        }
    }
}

/// A method of a trait.
#[derive(Debug)]
pub struct TraitMethodInfo {
    pub name: String,
    pub param_types: Vec<Type>,
    pub return_type: Type,
    /// The variable that stands for the implementing type.
    pub trait_param_id: Option<u32>,
    pub scheme: Scheme,
    pub effect_sig: TraitMethodEffectSig,
}

#[verifier::ext_equal]
pub struct MethodModel {
    pub name: Seq<char>,
    pub param_types: Seq<Ty>,
    pub return_type: Ty,
    pub trait_param_id: Option<u32>,
    pub scheme: SchemeModel,
    pub effect_sig: EffectSigModel,
}

impl DeepView for TraitMethodInfo {
    type V = MethodModel;

    open spec fn deep_view(&self) -> MethodModel {
        MethodModel {
            name: self.name.deep_view(),
            param_types: self.param_types.deep_view(),
            return_type: self.return_type.deep_view(),
            trait_param_id: self.trait_param_id.deep_view(),
            scheme: self.scheme.deep_view(),
            effect_sig: self.effect_sig.deep_view(),
        }
    }
}

impl Dup for TraitMethodInfo {
    fn dup(&self) -> (r: Self) {
        TraitMethodInfo {
            name: self.name.dup(),
            param_types: self.param_types.dup(),
            return_type: self.return_type.dup(),
            trait_param_id: self.trait_param_id.dup(),
            scheme: self.scheme.dup(),
            effect_sig: self.effect_sig.dup(),
        }
    }
}

/// A registered trait.
#[derive(Debug)]
pub struct TraitInfo {
    pub type_params: Vec<String>,
    pub supertraits: Vec<String>,
    pub methods: Vec<TraitMethodInfo>,
}

#[verifier::ext_equal]
pub struct TraitModel {
    pub type_params: Seq<Seq<char>>,
    pub supertraits: Seq<Seq<char>>,
    pub methods: Seq<MethodModel>,
}

impl DeepView for TraitInfo {
    type V = TraitModel;

    open spec fn deep_view(&self) -> TraitModel {
        TraitModel {
            type_params: self.type_params.deep_view(),
            supertraits: self.supertraits.deep_view(),
            methods: self.methods.deep_view(),
        }
    }
}

impl Dup for TraitInfo {
    fn dup(&self) -> (r: Self) {
        TraitInfo {
            type_params: self.type_params.dup(),
            supertraits: self.supertraits.dup(),
            methods: self.methods.dup(),
        }
    }
}

/// A registered impl.
pub struct ImplInfo {
    /// Traits that the arguments of the target type need, by position.
    pub param_constraints: Vec<(String, usize)>,
    /// The same, by the variables of the target pattern.
    pub param_constraints_by_var: Vec<(String, u32)>,
    /// Traits with further arguments, by variable.
    pub param_constraints_by_var_with_args: Vec<(String, u32, Vec<Type>)>,
    pub target_pattern: Option<Type>,
    pub trait_type_args: Vec<Type>,
    pub target_type_param_ids: Vec<u32>,
    pub span: Option<Span>,
    /// The effects of each method.
    pub method_effects: Table<String, Vec<String>>,
}

#[verifier::ext_equal]
pub struct ImplModel {
    pub param_constraints: Seq<(Seq<char>, usize)>,
    pub param_constraints_by_var: Seq<(Seq<char>, u32)>,
    pub param_constraints_by_var_with_args: Seq<(Seq<char>, u32, Seq<Ty>)>,
    pub target_pattern: Option<Ty>,
    pub trait_type_args: Seq<Ty>,
    pub target_type_param_ids: Seq<u32>,
    pub span: Option<Span>,
    pub method_effects: Seq<(Seq<char>, Seq<Seq<char>>)>,
}

impl DeepView for ImplInfo {
    type V = ImplModel;

    open spec fn deep_view(&self) -> ImplModel {
        ImplModel {
            param_constraints: self.param_constraints.deep_view(),
            param_constraints_by_var: self.param_constraints_by_var.deep_view(),
            param_constraints_by_var_with_args: self.param_constraints_by_var_with_args.deep_view(),
            target_pattern: self.target_pattern.deep_view(),
            trait_type_args: self.trait_type_args.deep_view(),
            target_type_param_ids: self.target_type_param_ids.deep_view(),
            span: self.span.deep_view(),
            method_effects: self.method_effects.order(),
        }
    }
}

impl Dup for ImplInfo {
    fn dup(&self) -> (r: Self) {
        ImplInfo {
            param_constraints: self.param_constraints.dup(),
            param_constraints_by_var: self.param_constraints_by_var.dup(),
            param_constraints_by_var_with_args: self.param_constraints_by_var_with_args.dup(),
            target_pattern: self.target_pattern.dup(),
            trait_type_args: self.trait_type_args.dup(),
            target_type_param_ids: self.target_type_param_ids.dup(),
            span: self.span.dup(),
            method_effects: self.method_effects.dup(),
        }
    }
}

/// The signature of an effect operation.
#[derive(Debug)]
pub struct EffectOpSig {
    pub name: String,
    pub effect_name: String,
    pub params: Vec<(String, Type)>,
    pub return_type: Type,
    pub needs: EffectRow,
    pub constraints: Vec<(String, u32, Vec<Type>)>,
}

#[verifier::ext_equal]
pub struct OpModel {
    pub name: Seq<char>,
    pub effect_name: Seq<char>,
    pub params: Seq<(Seq<char>, Ty)>,
    pub return_type: Ty,
    pub needs: Row,
    pub constraints: Seq<(Seq<char>, u32, Seq<Ty>)>,
}

impl DeepView for EffectOpSig {
    type V = OpModel;

    open spec fn deep_view(&self) -> OpModel {
        OpModel {
            name: self.name.deep_view(),
            effect_name: self.effect_name.deep_view(),
            params: self.params.deep_view(),
            return_type: self.return_type.deep_view(),
            needs: self.needs.deep_view(),
            constraints: self.constraints.deep_view(),
        }
    }
}

impl Dup for EffectOpSig {
    fn dup(&self) -> (r: Self) {
        EffectOpSig {
            name: self.name.dup(),
            effect_name: self.effect_name.dup(),
            params: self.params.dup(),
            return_type: self.return_type.dup(),
            needs: self.needs.dup(),
            constraints: self.constraints.dup(),
        }
    }
}

/// A registered effect.
pub struct EffectDefInfo {
    pub type_params: Vec<u32>,
    pub ops: Vec<EffectOpSig>,
    pub op_spans: Table<String, Span>,
    pub source_module: Option<String>,
}

#[verifier::ext_equal]
pub struct EffectModel {
    pub type_params: Seq<u32>,
    pub ops: Seq<OpModel>,
    pub op_spans: Seq<(Seq<char>, Span)>,
    pub source_module: Option<Seq<char>>,
}

impl DeepView for EffectDefInfo {
    type V = EffectModel;

    open spec fn deep_view(&self) -> EffectModel {
        EffectModel {
            type_params: self.type_params.deep_view(),
            ops: self.ops.deep_view(),
            op_spans: self.op_spans.order(),
            source_module: self.source_module.deep_view(),
        }
    }
}

impl Dup for EffectDefInfo {
    fn dup(&self) -> (r: Self) {
        EffectDefInfo {
            type_params: self.type_params.dup(),
            ops: self.ops.dup(),
            op_spans: self.op_spans.dup(),
            source_module: self.source_module.dup(),
        }
    }
}

/// A registered handler.
pub struct HandlerInfo {
    pub effects: Vec<String>,
    /// The type of the handled value and the type that the handler gives back for
    /// it.
    pub return_type: Option<(Type, Type)>,
    pub needs_effects: EffectRow,
    pub forall: Vec<u32>,
    pub arm_spans: Table<String, Span>,
    /// Effect and parameter position -> the traits that the argument needs.
    pub where_constraints: Table<(String, usize), Vec<(String, Vec<u32>)>>,
    pub source_module: Option<String>,
}

#[verifier::ext_equal]
pub struct HandlerModel {
    pub effects: Seq<Seq<char>>,
    pub return_type: Option<(Ty, Ty)>,
    pub needs_effects: Row,
    pub forall: Seq<u32>,
    pub arm_spans: Seq<(Seq<char>, Span)>,
    pub where_constraints: Seq<((Seq<char>, usize), Seq<(Seq<char>, Seq<u32>)>)>,
    pub source_module: Option<Seq<char>>,
}

impl DeepView for HandlerInfo {
    type V = HandlerModel;

    open spec fn deep_view(&self) -> HandlerModel {
        HandlerModel {
            effects: self.effects.deep_view(),
            return_type: self.return_type.deep_view(),
            needs_effects: self.needs_effects.deep_view(),
            forall: self.forall.deep_view(),
            arm_spans: self.arm_spans.order(),
            where_constraints: self.where_constraints.order(),
            source_module: self.source_module.deep_view(),
        }
    }
}

impl Dup for HandlerInfo {
    fn dup(&self) -> (r: Self) {
        HandlerInfo {
            effects: self.effects.dup(),
            return_type: self.return_type.dup(),
            needs_effects: self.needs_effects.dup(),
            forall: self.forall.dup(),
            arm_spans: self.arm_spans.dup(),
            where_constraints: self.where_constraints.dup(),
            source_module: self.source_module.dup(),
        }
    }
}

/// A registered record.
#[derive(Debug)]
pub struct RecordInfo {
    pub type_params: Vec<u32>,
    pub fields: Vec<(String, Type)>,
}

#[verifier::ext_equal]
pub struct RecordModel {
    pub type_params: Seq<u32>,
    pub fields: Seq<(Seq<char>, Ty)>,
}

impl DeepView for RecordInfo {
    type V = RecordModel;

    open spec fn deep_view(&self) -> RecordModel {
        RecordModel {
            type_params: self.type_params.deep_view(),
            fields: self.fields.deep_view(),
        }
    }
}

impl Dup for RecordInfo {
    fn dup(&self) -> (r: Self) {
        RecordInfo {
            type_params: self.type_params.dup(),
            fields: self.fields.dup(),
        }
    }
}

/// All public items exported by a typechecked module, cached as a single unit.
pub struct ModuleExports {
    /// Public type bindings: name -> scheme.
    pub bindings: Vec<(String, Scheme)>,
    /// Public binding surface name -> canonical origin name.
    pub binding_origins: Table<String, String>,
    /// Type name -> constructor names, none for opaque types.
    pub type_constructors: Table<String, Vec<String>>,
    /// Canonical names of private types -> their constructors, which the bodies of
    /// default methods may use.
    pub inlinable_constructors: Table<String, Vec<(String, Scheme)>>,
    /// Public type surface name -> canonical origin type name.
    pub type_origins: Table<String, String>,
    /// Record name -> record info.
    pub record_defs: Table<String, RecordInfo>,
    /// Trait name -> trait info.
    pub traits: Table<String, TraitInfo>,
    /// Public trait surface name -> canonical origin trait name.
    pub trait_origins: Table<String, String>,
    /// Trait name, trait type arguments and target type -> impl info.
    pub trait_impls: Table<(String, Vec<String>, String), ImplInfo>,
    /// Effect name -> effect info.
    pub effects: Table<String, EffectDefInfo>,
    /// Public effect surface name -> canonical origin effect name.
    pub effect_origins: Table<String, String>,
    /// Handler name -> handler info.
    pub handlers: Table<String, HandlerInfo>,
    /// Public handler surface name -> canonical origin handler name.
    pub handler_origins: Table<String, String>,
    /// Public record builder context surface name -> builder.
    pub record_builders: Table<String, RecordBuilderInfo>,
    /// Type name -> declared parameter count.
    pub type_arity: Table<String, usize>,
    /// Type name -> declared kinds of its parameters.
    pub type_param_kinds: Table<String, Vec<Kind>>,
    /// Public type aliases, by bare name.
    pub type_aliases: Table<String, TypeAliasInfo>,
    /// Names of effectful functions, each once.
    pub effectful_funs: Vec<String>,
    /// Where exported bindings are defined.
    pub def_ids: Table<String, NodeId>,
    /// Doc comments of exported declarations.
    pub doc_comments: Table<String, Vec<String>>,
}

#[verifier::ext_equal]
pub struct ExportsModel {
    pub bindings: Seq<(Seq<char>, SchemeModel)>,
    pub binding_origins: Seq<(Seq<char>, Seq<char>)>,
    pub type_constructors: Seq<(Seq<char>, Seq<Seq<char>>)>,
    pub inlinable_constructors: Seq<(Seq<char>, Seq<(Seq<char>, SchemeModel)>)>,
    pub type_origins: Seq<(Seq<char>, Seq<char>)>,
    pub record_defs: Seq<(Seq<char>, RecordModel)>,
    pub traits: Seq<(Seq<char>, TraitModel)>,
    pub trait_origins: Seq<(Seq<char>, Seq<char>)>,
    pub trait_impls: Seq<((Seq<char>, Seq<Seq<char>>, Seq<char>), ImplModel)>,
    pub effects: Seq<(Seq<char>, EffectModel)>,
    pub effect_origins: Seq<(Seq<char>, Seq<char>)>,
    pub handlers: Seq<(Seq<char>, HandlerModel)>,
    pub handler_origins: Seq<(Seq<char>, Seq<char>)>,
    pub record_builders: Seq<(Seq<char>, BuilderModel)>,
    pub type_arity: Seq<(Seq<char>, usize)>,
    pub type_param_kinds: Seq<(Seq<char>, Seq<Kind>)>,
    pub type_aliases: Seq<(Seq<char>, AliasModel)>,
    pub effectful_funs: Seq<Seq<char>>,
    pub def_ids: Seq<(Seq<char>, NodeId)>,
    pub doc_comments: Seq<(Seq<char>, Seq<Seq<char>>)>,
}

impl DeepView for ModuleExports {
    type V = ExportsModel;

    open spec fn deep_view(&self) -> ExportsModel {
        ExportsModel {
            bindings: self.bindings.deep_view(),
            binding_origins: self.binding_origins.order(),
            type_constructors: self.type_constructors.order(),
            inlinable_constructors: self.inlinable_constructors.order(),
            type_origins: self.type_origins.order(),
            record_defs: self.record_defs.order(),
            traits: self.traits.order(),
            trait_origins: self.trait_origins.order(),
            trait_impls: self.trait_impls.order(),
            effects: self.effects.order(),
            effect_origins: self.effect_origins.order(),
            handlers: self.handlers.order(),
            handler_origins: self.handler_origins.order(),
            record_builders: self.record_builders.order(),
            type_arity: self.type_arity.order(),
            type_param_kinds: self.type_param_kinds.order(),
            type_aliases: self.type_aliases.order(),
            effectful_funs: self.effectful_funs.deep_view(),
            def_ids: self.def_ids.order(),
            doc_comments: self.doc_comments.order(),
        }
    }
}

impl Dup for ModuleExports {
    fn dup(&self) -> (r: Self) {
        ModuleExports {
            bindings: self.bindings.dup(),
            binding_origins: self.binding_origins.dup(),
            type_constructors: self.type_constructors.dup(),
            inlinable_constructors: self.inlinable_constructors.dup(),
            type_origins: self.type_origins.dup(),
            record_defs: self.record_defs.dup(),
            traits: self.traits.dup(),
            trait_origins: self.trait_origins.dup(),
            trait_impls: self.trait_impls.dup(),
            effects: self.effects.dup(),
            effect_origins: self.effect_origins.dup(),
            handlers: self.handlers.dup(),
            handler_origins: self.handler_origins.dup(),
            record_builders: self.record_builders.dup(),
            type_arity: self.type_arity.dup(),
            type_param_kinds: self.type_param_kinds.dup(),
            type_aliases: self.type_aliases.dup(),
            effectful_funs: self.effectful_funs.dup(),
            def_ids: self.def_ids.dup(),
            doc_comments: self.doc_comments.dup(),
        }
    }
}

/// The exports of a module that exports nothing.
pub open spec fn no_exports() -> ExportsModel {
    ExportsModel {
        bindings: Seq::empty(),
        binding_origins: Seq::empty(),
        type_constructors: Seq::empty(),
        inlinable_constructors: Seq::empty(),
        type_origins: Seq::empty(),
        record_defs: Seq::empty(),
        traits: Seq::empty(),
        trait_origins: Seq::empty(),
        trait_impls: Seq::empty(),
        effects: Seq::empty(),
        effect_origins: Seq::empty(),
        handlers: Seq::empty(),
        handler_origins: Seq::empty(),
        record_builders: Seq::empty(),
        type_arity: Seq::empty(),
        type_param_kinds: Seq::empty(),
        type_aliases: Seq::empty(),
        effectful_funs: Seq::empty(),
        def_ids: Seq::empty(),
        doc_comments: Seq::empty(),
    }
}

impl ModuleExports {
    /// The exports of a module that exports nothing.
    pub fn new() -> (r: Self)
        ensures
            r.deep_view() == no_exports(),
    {
        let r = ModuleExports {
            bindings: Vec::new(),
            binding_origins: Table::new(),
            type_constructors: Table::new(),
            inlinable_constructors: Table::new(),
            type_origins: Table::new(),
            record_defs: Table::new(),
            traits: Table::new(),
            trait_origins: Table::new(),
            trait_impls: Table::new(),
            effects: Table::new(),
            effect_origins: Table::new(),
            handlers: Table::new(),
            handler_origins: Table::new(),
            record_builders: Table::new(),
            type_arity: Table::new(),
            type_param_kinds: Table::new(),
            type_aliases: Table::new(),
            effectful_funs: Vec::new(),
            def_ids: Table::new(),
            doc_comments: Table::new(),
        };
        assert(r.bindings.deep_view() =~= Seq::empty());
        assert(r.effectful_funs.deep_view() =~= Seq::empty());
        r
    }
}

} // verus!
