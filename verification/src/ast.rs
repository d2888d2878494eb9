//! Surface syntax: the declarations of a program, as far as the checker reads
//! them.

use vstd::prelude::*;

use crate::token::Span;
use crate::values::{Dup, Same};

verus! {

/// The identity of a node of the syntax tree.
#[derive(Debug, Clone, Copy, PartialEq, Eq, Structural)]
pub struct NodeId(pub u32);

impl DeepView for NodeId {
    type V = NodeId;

    open spec fn deep_view(&self) -> NodeId {
        *self
    }
}

impl Dup for NodeId {
    fn dup(&self) -> (r: Self) {
        *self
    }
}

impl Same for NodeId {
    fn same(&self, other: &Self) -> (r: bool) {
        *self == *other
    }
}

/// The kind of a type parameter.
#[derive(Debug, Clone, Copy, PartialEq, Eq, Structural)]
pub enum Kind {
    Star,
    Symbol,
}

impl DeepView for Kind {
    type V = Kind;

    open spec fn deep_view(&self) -> Kind {
        *self
    }
}

impl Dup for Kind {
    fn dup(&self) -> (r: Self) {
        *self
    }
}

impl Same for Kind {
    fn same(&self, other: &Self) -> (r: bool) {
        *self == *other
    }
}

#[derive(Debug)]
pub struct TypeParam {
    pub name: String,
    pub kind: Kind,
}

#[verifier::ext_equal]
pub struct TypeParamModel {
    pub name: Seq<char>,
    pub kind: Kind,
}

impl DeepView for TypeParam {
    type V = TypeParamModel;

    open spec fn deep_view(&self) -> TypeParamModel {
        TypeParamModel { name: self.name@, kind: self.kind }
    }
}

impl Dup for TypeParam {
    fn dup(&self) -> (r: Self) {
        TypeParam { name: self.name.clone(), kind: self.kind }
    }
}

/// A type as written.
#[derive(Debug)]
pub enum TypeExpr {
    Named { id: NodeId, name: String, span: Span },
    Var { id: NodeId, name: String, span: Span },
    App { id: NodeId, func: Box<TypeExpr>, arg: Box<TypeExpr>, span: Span },
    Arrow {
        id: NodeId,
        from: Box<TypeExpr>,
        to: Box<TypeExpr>,
        effects: Vec<EffectRef>,
        effect_row_var: Vec<(String, Span)>,
        span: Span,
    },
    Record { id: NodeId, fields: Vec<(String, TypeExpr)>, span: Span },
    Labeled { id: NodeId, label: String, inner: Box<TypeExpr>, span: Span },
    Symbol { id: NodeId, name: String, span: Span },
}

/// A mention of an effect: `State Int`.
#[derive(Debug)]
pub struct EffectRef {
    pub id: NodeId,
    pub name: String,
    pub type_args: Vec<TypeExpr>,
    pub span: Span,
}

/// A mention of a trait: `ConvertTo b`.
#[derive(Debug)]
pub struct TraitRef {
    pub id: NodeId,
    pub name: String,
    pub type_args: Vec<TypeExpr>,
    pub span: Span,
}

/// `a: Show + Eq` in a where clause.
#[derive(Debug)]
pub struct TraitBound {
    pub type_var: String,
    pub traits: Vec<TraitRef>,
}

/// `ConvertTo a b` in a where clause.
#[derive(Debug)]
pub struct TraitApp {
    pub trait_name: String,
    pub type_args: Vec<TypeExpr>,
    pub span: Span,
}

#[derive(Debug)]
pub struct TypeConstructor {
    pub id: NodeId,
    pub name: String,
    pub fields: Vec<(Option<String>, TypeExpr)>,
    pub span: Span,
}

#[derive(Debug)]
pub struct TraitMethod {
    pub name: String,
    pub params: Vec<(String, TypeExpr)>,
    pub return_type: TypeExpr,
    pub effects: Vec<EffectRef>,
    pub effect_row_var: Vec<(String, Span)>,
    pub span: Span,
}

#[derive(Debug)]
pub struct EffectOp {
    pub name: String,
    pub params: Vec<(String, TypeExpr)>,
    pub return_type: TypeExpr,
    pub effects: Vec<EffectRef>,
    pub effect_row_var: Vec<(String, Span)>,
    pub where_clause: Vec<TraitBound>,
    pub span: Span,
}

/// A literal; numbers as written.
#[derive(Debug)]
pub enum Lit {
    Int(String),
    Float(String),
    String(String),
    Bool(bool),
    Unit,
}

#[derive(Debug)]
pub enum Pat {
    Var { id: NodeId, name: String, span: Span },
    Wildcard { id: NodeId, span: Span },
    Other { id: NodeId, span: Span },
}

#[derive(Debug)]
pub struct Expr {
    pub id: NodeId,
    pub kind: ExprKind,
    pub span: Span,
}

#[derive(Debug)]
pub enum ExprKind {
    Lit { value: Lit },
    ListLit { elements: Vec<Expr> },
    Tuple { elements: Vec<Expr> },
    Constructor { name: String },
    App { func: Box<Expr>, arg: Box<Expr> },
    Var { name: String },
    UnaryMinus { expr: Box<Expr> },
    Other,
}

#[derive(Debug)]
pub struct ImplMethod {
    pub name: String,
    pub params: Vec<Pat>,
    pub body: Expr,
}

#[derive(Debug)]
pub struct HandlerArm {
    pub op_name: String,
    pub params: Vec<Pat>,
    pub body: Expr,
    pub finally_block: Option<Expr>,
    pub span: Span,
}

#[derive(Debug)]
pub struct HandlerBody {
    pub effects: Vec<EffectRef>,
    pub needs: Vec<EffectRef>,
    pub where_clause: Vec<TraitBound>,
    pub arms: Vec<HandlerArm>,
    pub return_clause: Option<HandlerArm>,
}

/// `@external("erlang", "lists", "reverse")`.
#[derive(Debug)]
pub struct Annotation {
    pub name: String,
    pub args: Vec<Lit>,
}

#[derive(Debug)]
pub struct ExposedItem {
    pub name: String,
    pub alias: Option<String>,
    pub public: bool,
    pub span: Span,
}

/// What an import makes visible.
#[derive(Debug)]
pub enum Exposing {
    All { public: bool, span: Span },
    Items(Vec<ExposedItem>),
}

#[allow(inconsistent_fields)]
#[derive(Debug)]
pub enum Decl {
    ModuleDecl { path: Vec<String>, span: Span },
    Import {
        id: NodeId,
        module: Vec<String>,
        alias: Option<String>,
        exposing: Option<Exposing>,
        span: Span,
    },
    FunSignature {
        id: NodeId,
        doc: Vec<String>,
        public: bool,
        name: String,
        name_span: Span,
        params: Vec<(String, TypeExpr)>,
        return_type: TypeExpr,
        effects: Vec<EffectRef>,
        effect_row_var: Vec<(String, Span)>,
        where_clause: Vec<TraitBound>,
        annotations: Vec<Annotation>,
        span: Span,
    },
    FunBinding {
        id: NodeId,
        name: String,
        name_span: Span,
        params: Vec<Pat>,
        guard: Option<Expr>,
        body: Expr,
        span: Span,
    },
    Let {
        id: NodeId,
        name: String,
        name_span: Span,
        annotation: Option<TypeExpr>,
        value: Expr,
        span: Span,
    },
    TypeDef {
        id: NodeId,
        doc: Vec<String>,
        public: bool,
        opaque: bool,
        name: String,
        name_span: Span,
        type_params: Vec<TypeParam>,
        variants: Vec<TypeConstructor>,
        span: Span,
    },
    TypeAlias {
        id: NodeId,
        doc: Vec<String>,
        public: bool,
        name: String,
        name_span: Span,
        type_params: Vec<TypeParam>,
        body: TypeExpr,
        span: Span,
    },
    RecordDef {
        id: NodeId,
        doc: Vec<String>,
        public: bool,
        name: String,
        name_span: Span,
        type_params: Vec<TypeParam>,
        fields: Vec<(String, TypeExpr)>,
        span: Span,
    },
    RecordBuilderDef {
        id: NodeId,
        public: bool,
        context: String,
        start: String,
        field: String,
        span: Span,
    },
    TraitDef {
        id: NodeId,
        doc: Vec<String>,
        public: bool,
        name: String,
        name_span: Span,
        type_params: Vec<TypeParam>,
        functional_dependency: Option<Span>,
        supertraits: Vec<TraitRef>,
        methods: Vec<TraitMethod>,
        span: Span,
    },
    ImplDef {
        id: NodeId,
        trait_name: String,
        trait_name_span: Span,
        trait_type_args: Vec<TypeExpr>,
        target_type: String,
        target_type_span: Span,
        target_type_expr: Option<TypeExpr>,
        type_params: Vec<TypeParam>,
        where_clause: Vec<TraitBound>,
        where_apps: Vec<TraitApp>,
        needs: Vec<EffectRef>,
        methods: Vec<ImplMethod>,
        span: Span,
    },
    EffectDef {
        id: NodeId,
        doc: Vec<String>,
        public: bool,
        name: String,
        name_span: Span,
        type_params: Vec<TypeParam>,
        operations: Vec<EffectOp>,
        span: Span,
    },
    NewEffect { id: NodeId, public: bool, name: String, name_span: Span, span: Span },
    HandlerDef {
        id: NodeId,
        doc: Vec<String>,
        public: bool,
        name: String,
        name_span: Span,
        body: HandlerBody,
        span: Span,
    },
}

/// The name at the head of a type application: `List` in `List a`.
pub open spec fn head_name_of(t: TypeExpr) -> Option<Seq<char>>
    decreases t,
{
    match t {
        TypeExpr::Named { name, .. } => Some(name@),
        TypeExpr::Var { name, .. } => Some(name@),
        TypeExpr::App { func, .. } => head_name_of(*func),
        _ => None,
    }
}

/// The node at the head of a type application.
pub open spec fn head_id_of(t: TypeExpr) -> Option<NodeId>
    decreases t,
{
    match t {
        TypeExpr::Named { id, .. } => Some(id),
        TypeExpr::Var { id, .. } => Some(id),
        TypeExpr::App { func, .. } => head_id_of(*func),
        _ => None,
    }
}

/// How many arguments a type application has.
pub open spec fn app_args_of(t: TypeExpr) -> nat
    decreases t,
{
    match t {
        TypeExpr::App { func, .. } => app_args_of(*func) + 1,
        _ => 0,
    }
}

pub open spec fn id_of(t: TypeExpr) -> NodeId {
    match t {
        TypeExpr::Named { id, .. } => id,
        TypeExpr::Var { id, .. } => id,
        TypeExpr::App { id, .. } => id,
        TypeExpr::Arrow { id, .. } => id,
        TypeExpr::Record { id, .. } => id,
        TypeExpr::Labeled { id, .. } => id,
        TypeExpr::Symbol { id, .. } => id,
    }
}

pub open spec fn span_of(t: TypeExpr) -> Span {
    match t {
        TypeExpr::Named { span, .. } => span,
        TypeExpr::Var { span, .. } => span,
        TypeExpr::App { span, .. } => span,
        TypeExpr::Arrow { span, .. } => span,
        TypeExpr::Record { span, .. } => span,
        TypeExpr::Labeled { span, .. } => span,
        TypeExpr::Symbol { span, .. } => span,
    }
}

impl TypeExpr {
    pub fn id(&self) -> (r: NodeId)
        ensures
            r == id_of(*self),
    {
        match self {
            TypeExpr::Named { id, .. } => *id,
            TypeExpr::Var { id, .. } => *id,
            TypeExpr::App { id, .. } => *id,
            TypeExpr::Arrow { id, .. } => *id,
            TypeExpr::Record { id, .. } => *id,
            TypeExpr::Labeled { id, .. } => *id,
            TypeExpr::Symbol { id, .. } => *id,
        }
    }

    pub fn span(&self) -> (r: Span)
        ensures
            r == span_of(*self),
    {
        match self {
            TypeExpr::Named { span, .. } => *span,
            TypeExpr::Var { span, .. } => *span,
            TypeExpr::App { span, .. } => *span,
            TypeExpr::Arrow { span, .. } => *span,
            TypeExpr::Record { span, .. } => *span,
            TypeExpr::Labeled { span, .. } => *span,
            TypeExpr::Symbol { span, .. } => *span,
        }
    }

    pub fn head_name(&self) -> (r: Option<&String>)
        ensures
            match r {
                Some(name) => head_name_of(*self) == Some(name@),
                None => head_name_of(*self) is None,
            },
        decreases self,
    {
        match self {
            TypeExpr::Named { name, .. } => Some(name),
            TypeExpr::Var { name, .. } => Some(name),
            TypeExpr::App { func, .. } => func.head_name(),
            _ => None,
        }
    }

    /// How many arguments a type application has.
    pub fn app_arg_count(&self) -> (n: usize)
        requires
            app_args_of(*self) <= usize::MAX,
        ensures
            n == app_args_of(*self),
        decreases self,
    {
        match self {
            TypeExpr::App { func, .. } => func.app_arg_count() + 1,
            _ => 0,
        }
    }

    pub fn head_id(&self) -> (r: Option<NodeId>)
        ensures
            r == head_id_of(*self),
        decreases self,
    {
        match self {
            TypeExpr::Named { id, .. } => Some(*id),
            TypeExpr::Var { id, .. } => Some(*id),
            TypeExpr::App { func, .. } => func.head_id(),
            _ => None,
        }
    }
}

/// The name under which an exposed item is visible.
pub open spec fn surface_of(item: ExposedItem) -> Seq<char> {
    match item.alias {
        Some(alias) => alias@,
        None => item.name@,
    }
}

impl ExposedItem {
    pub fn surface_name(&self) -> (r: &String)
        ensures
            r@ == surface_of(*self),
    {
        match &self.alias {
            Some(alias) => alias,
            None => &self.name,
        }
    }
}

/// Whether an expression is a value that can stand in place of its name:
/// literals, lists and tuples of such values, constructors and what is applied
/// to such values, and names of other values.
pub open spec fn is_inlineable(e: Expr) -> bool
    decreases e,
{
    match e.kind {
        ExprKind::Lit { value } => !(value is Unit),
        ExprKind::ListLit { elements } => all_inlineable(elements),
        ExprKind::Tuple { elements } => all_inlineable(elements),
        ExprKind::Constructor { .. } => true,
        ExprKind::App { func, arg } => is_inlineable(*func) && is_inlineable(*arg),
        ExprKind::Var { .. } => true,
        ExprKind::UnaryMinus { expr } => is_inlineable(*expr),
        ExprKind::Other => false,
    }
}

pub open spec fn all_inlineable(elements: Vec<Expr>) -> bool
    decreases elements,
{
    forall|i: int| 0 <= i < elements@.len() ==> is_inlineable(#[trigger] elements@[i])
}

pub fn is_inlineable_expr(e: &Expr) -> (r: bool)
    ensures
        r == is_inlineable(*e),
    decreases e,
{
    match &e.kind {
        ExprKind::Lit { value } => match value {
            Lit::Unit => false,
            _ => true,
        },
        ExprKind::ListLit { elements } => all_inlineable_exprs(elements),
        ExprKind::Tuple { elements } => all_inlineable_exprs(elements),
        ExprKind::Constructor { .. } => true,
        ExprKind::App { func, arg } => is_inlineable_expr(func) && is_inlineable_expr(arg),
        ExprKind::Var { .. } => true,
        ExprKind::UnaryMinus { expr } => is_inlineable_expr(expr),
        ExprKind::Other => false,
    }
}

fn all_inlineable_exprs(elements: &Vec<Expr>) -> (r: bool)
    ensures
        r == all_inlineable(*elements),
    decreases elements,
{
    let mut i: usize = 0;
    while i < elements.len()
        invariant
            i <= elements.len(),
            forall|j: int| 0 <= j < i ==> is_inlineable(#[trigger] elements@[j]),
        decreases elements.len() - i,
    {
        if !is_inlineable_expr(&elements[i]) {
            return false;
        }
        i = i + 1;
    }
    true
}

} // verus!
