//! The interface of a module as far as it can be read off its declarations.

use vstd::prelude::*;
use crate::values::Dup;

verus! {

/// A type as written in a signature.
#[derive(Debug)]
pub enum HeaderTypeExpr {
    Named(String),
    Var(String),
    App { func: Box<HeaderTypeExpr>, arg: Box<HeaderTypeExpr> },
    Arrow {
        from: Box<HeaderTypeExpr>,
        to: Box<HeaderTypeExpr>,
        effects: Vec<HeaderEffectRef>,
        effect_row_vars: Vec<String>,
    },
    Record(Vec<(String, HeaderTypeExpr)>),
    Labeled { label: String, inner: Box<HeaderTypeExpr> },
    Symbol(String),
}

#[derive(Debug)]
pub struct HeaderEffectRef {
    pub name: String,
    pub type_args: Vec<HeaderTypeExpr>,
}

/// What a written type stands for.
#[verifier::ext_equal]
pub enum HeaderTy {
    Named(Seq<char>),
    Var(Seq<char>),
    App { func: Box<HeaderTy>, arg: Box<HeaderTy> },
    Arrow {
        from: Box<HeaderTy>,
        to: Box<HeaderTy>,
        effects: Seq<EffectRefModel>,
        effect_row_vars: Seq<Seq<char>>,
    },
    Record(Seq<(Seq<char>, HeaderTy)>),
    Labeled { label: Seq<char>, inner: Box<HeaderTy> },
    Symbol(Seq<char>),
}

#[verifier::ext_equal]
pub struct EffectRefModel {
    pub name: Seq<char>,
    pub type_args: Seq<HeaderTy>,
}

pub open spec fn header_ty(t: HeaderTypeExpr) -> HeaderTy
    decreases t,
{
    match t {
        HeaderTypeExpr::Named(name) => HeaderTy::Named(name@),
        HeaderTypeExpr::Var(name) => HeaderTy::Var(name@),
        HeaderTypeExpr::App { func, arg } => HeaderTy::App {
            func: Box::new(header_ty(*func)),
            arg: Box::new(header_ty(*arg)),
        },
        HeaderTypeExpr::Arrow { from, to, effects, effect_row_vars } => HeaderTy::Arrow {
            from: Box::new(header_ty(*from)),
            to: Box::new(header_ty(*to)),
            effects: effect_refs_model(effects),
            effect_row_vars: effect_row_vars.deep_view(),
        },
        HeaderTypeExpr::Record(fields) => HeaderTy::Record(header_fields_model(fields)),
        HeaderTypeExpr::Labeled { label, inner } => HeaderTy::Labeled {
            label: label@,
            inner: Box::new(header_ty(*inner)),
        },
        HeaderTypeExpr::Symbol(name) => HeaderTy::Symbol(name@),
    }
}

pub open spec fn header_tys_model(v: Vec<HeaderTypeExpr>) -> Seq<HeaderTy>
    decreases v,
{
    Seq::new(
        v@.len(),
        |i: int|
            if 0 <= i < v@.len() {
                header_ty(v@[i])
            } else {
                HeaderTy::Named(Seq::empty())
            },
    )
}

pub open spec fn header_fields_model(v: Vec<(String, HeaderTypeExpr)>) -> Seq<
    (Seq<char>, HeaderTy),
>
    decreases v,
{
    Seq::new(
        v@.len(),
        |i: int|
            if 0 <= i < v@.len() {
                (v@[i].0@, header_ty(v@[i].1))
            } else {
                (Seq::empty(), HeaderTy::Named(Seq::empty()))
            },
    )
}

pub open spec fn effect_ref_model(e: HeaderEffectRef) -> EffectRefModel
    decreases e,
{
    EffectRefModel { name: e.name@, type_args: header_tys_model(e.type_args) }
}

pub open spec fn effect_refs_model(v: Vec<HeaderEffectRef>) -> Seq<EffectRefModel>
    decreases v,
{
    Seq::new(
        v@.len(),
        |i: int|
            if 0 <= i < v@.len() {
                effect_ref_model(v@[i])
            } else {
                EffectRefModel { name: Seq::empty(), type_args: Seq::empty() }
            },
    )
}

impl DeepView for HeaderTypeExpr {
    type V = HeaderTy;

    open spec fn deep_view(&self) -> HeaderTy {
        header_ty(*self)
    }
}

impl DeepView for HeaderEffectRef {
    type V = EffectRefModel;

    open spec fn deep_view(&self) -> EffectRefModel {
        effect_ref_model(*self)
    }
}

/// What a written type stands for is made of what its parts stand for.
pub broadcast proof fn header_app_model(func: Box<HeaderTypeExpr>, arg: Box<HeaderTypeExpr>)
    ensures
        #[trigger] header_ty(HeaderTypeExpr::App { func, arg }) == (HeaderTy::App {
            func: Box::new(header_ty(*func)),
            arg: Box::new(header_ty(*arg)),
        }),
{
}

pub broadcast proof fn header_arrow_model(
    from: Box<HeaderTypeExpr>,
    to: Box<HeaderTypeExpr>,
    effects: Vec<HeaderEffectRef>,
    effect_row_vars: Vec<String>,
)
    ensures
        #[trigger] header_ty(HeaderTypeExpr::Arrow { from, to, effects, effect_row_vars })
            == (HeaderTy::Arrow {
            from: Box::new(header_ty(*from)),
            to: Box::new(header_ty(*to)),
            effects: effects.deep_view(),
            effect_row_vars: effect_row_vars.deep_view(),
        }),
{
    assert(effect_refs_model(effects) =~= effects.deep_view());
}

pub broadcast proof fn header_record_model(fields: Vec<(String, HeaderTypeExpr)>)
    ensures
        #[trigger] header_ty(HeaderTypeExpr::Record(fields)) == HeaderTy::Record(
            fields.deep_view(),
        ),
{
    assert(header_fields_model(fields) =~= fields.deep_view());
}

pub broadcast proof fn header_labeled_model(label: String, inner: Box<HeaderTypeExpr>)
    ensures
        #[trigger] header_ty(HeaderTypeExpr::Labeled { label, inner }) == (HeaderTy::Labeled {
            label: label@,
            inner: Box::new(header_ty(*inner)),
        }),
{
}

pub broadcast proof fn header_effect_ref_model(e: HeaderEffectRef)
    ensures
        #[trigger] effect_ref_model(e) == (EffectRefModel {
            name: e.name@,
            type_args: e.type_args.deep_view(),
        }),
{
    assert(header_tys_model(e.type_args) =~= e.type_args.deep_view());
}

pub broadcast group group_header_models {
    header_app_model,
    header_arrow_model,
    header_record_model,
    header_labeled_model,
    header_effect_ref_model,
}

/// Whether a name is handed on with what it stands for.
#[derive(Debug, Clone, Copy, PartialEq, Eq, Structural)]
pub enum HeaderVisibility {
    Public,
    Opaque,
}

impl DeepView for HeaderVisibility {
    type V = HeaderVisibility;

    open spec fn deep_view(&self) -> HeaderVisibility {
        *self
    }
}

impl Dup for HeaderVisibility {
    fn dup(&self) -> (r: Self) {
        *self
    }
}

} // verus!
