//! What code generation needs to know of a module.

use vstd::prelude::*;
use crate::ast::{
    head_name_of, Annotation, Decl, EffectOp, EffectRef, Lit, TraitApp, TraitBound, TraitRef,
    TypeExpr, TypeParam,
};
use crate::exports::{impl_target_key, target_fits, target_key_of};
use crate::import_scope::{is_type_name, names_type};
use crate::infos::{EffectDefInfo, EffectModel, EffectOpSig, ExportsModel, ModuleExports, OpModel};
use crate::names::{canonical_type_name, canonicalize_type_name, dict_name, make_dict_name};
use crate::schemes::{table_entries, Scheme, SchemeModel};
use crate::scope::{lookup, ScopeMap, ScopeModel};
use crate::seqs::push_contains;
use crate::sorting::{
    listings_have_each_name_once, ordered, ordered_is, ordered_set, sort_texts, sorted_texts,
    sorting_keeps_names,
};
use crate::table::{at_key, distinct_keys, has_key, put_then_get, Table};
use crate::text::{chars_of, concat4, dot_join, dotted, has_char, join_text, joined, text_eq};
use crate::types::{Entry, Ty, Type, group_type_models};
use crate::values::{push_value, Dup};

verus! {

/// What `str::to_lowercase` makes of a text.
pub uninterp spec fn lowercase(s: Seq<char>) -> Seq<char>;

/// `str::to_lowercase`, whose result depends on the text alone.
#[verifier::external_body]
fn to_lowercase(s: &str) -> (r: String)
    ensures
        r@ == lowercase(s@),
{
    s.to_lowercase()
}

/// An operation that the compiler itself provides.
#[derive(Debug, Clone, Copy, PartialEq, Eq, Structural)]
pub struct IntrinsicId(pub u32);

impl DeepView for IntrinsicId {
    type V = IntrinsicId;

    open spec fn deep_view(&self) -> IntrinsicId {
        *self
    }
}

impl Dup for IntrinsicId {
    fn dup(&self) -> (r: Self) {
        *self
    }
}

/// An effect operation as code generation sees it.
pub struct EffectOpDef {
    pub name: String,
    /// The number of parameters in the source.
    pub source_param_count: usize,
    /// The number of parameters without `Unit` placeholders.
    pub runtime_param_count: usize,
    /// The positions of the parameters that are no placeholders.
    pub runtime_param_positions: Vec<usize>,
    /// The effects of callback parameters.
    pub param_absorbed_effects: Table<usize, Vec<String>>,
    /// The callback parameters with an open effect row.
    pub param_open_rows: Vec<usize>,
    /// Dictionary parameters for the operation's own constraints.
    pub dict_param_names: Vec<String>,
}

#[verifier::ext_equal]
pub struct OpDefModel {
    pub name: Seq<char>,
    pub source_param_count: usize,
    pub runtime_param_count: usize,
    pub runtime_param_positions: Seq<usize>,
    pub param_absorbed_effects: Seq<(usize, Seq<Seq<char>>)>,
    pub param_open_rows: Seq<usize>,
    pub dict_param_names: Seq<Seq<char>>,
}

impl DeepView for EffectOpDef {
    type V = OpDefModel;

    open spec fn deep_view(&self) -> OpDefModel {
        OpDefModel {
            name: self.name.deep_view(),
            source_param_count: self.source_param_count.deep_view(),
            runtime_param_count: self.runtime_param_count.deep_view(),
            runtime_param_positions: self.runtime_param_positions.deep_view(),
            param_absorbed_effects: self.param_absorbed_effects.order(),
            param_open_rows: self.param_open_rows.deep_view(),
            dict_param_names: self.dict_param_names.deep_view(),
        }
    }
}

impl Dup for EffectOpDef {
    fn dup(&self) -> (r: Self) {
        EffectOpDef {
            name: self.name.dup(),
            source_param_count: self.source_param_count.dup(),
            runtime_param_count: self.runtime_param_count.dup(),
            runtime_param_positions: self.runtime_param_positions.dup(),
            param_absorbed_effects: self.param_absorbed_effects.dup(),
            param_open_rows: self.param_open_rows.dup(),
            dict_param_names: self.dict_param_names.dup(),
        }
    }
}

/// An effect as code generation sees it.
pub struct EffectDef {
    pub name: String,
    pub ops: Vec<EffectOpDef>,
    pub type_param_count: usize,
}

#[verifier::ext_equal]
pub struct EffectDefModel {
    pub name: Seq<char>,
    pub ops: Seq<OpDefModel>,
    pub type_param_count: usize,
}

impl DeepView for EffectDef {
    type V = EffectDefModel;

    open spec fn deep_view(&self) -> EffectDefModel {
        EffectDefModel {
            name: self.name.deep_view(),
            ops: self.ops.deep_view(),
            type_param_count: self.type_param_count.deep_view(),
        }
    }
}

impl Dup for EffectDef {
    fn dup(&self) -> (r: Self) {
        EffectDef {
            name: self.name.dup(),
            ops: self.ops.dup(),
            type_param_count: self.type_param_count.dup(),
        }
    }
}

/// The dictionary of an impl.
#[derive(Debug)]
pub struct TraitImplDict {
    pub trait_name: String,
    pub trait_type_args: Vec<String>,
    pub target_type: String,
    pub dict_name: String,
    /// The number of dictionary parameters.
    pub arity: usize,
    /// Trait and position of the constrained type parameter.
    pub param_constraints: Vec<(String, usize)>,
    /// The effects of the impl, in order, each once.
    pub impl_effects: Vec<String>,
}

#[verifier::ext_equal]
pub struct ImplDictModel {
    pub trait_name: Seq<char>,
    pub trait_type_args: Seq<Seq<char>>,
    pub target_type: Seq<char>,
    pub dict_name: Seq<char>,
    pub arity: usize,
    pub param_constraints: Seq<(Seq<char>, usize)>,
    pub impl_effects: Seq<Seq<char>>,
}

impl DeepView for TraitImplDict {
    type V = ImplDictModel;

    open spec fn deep_view(&self) -> ImplDictModel {
        ImplDictModel {
            trait_name: self.trait_name.deep_view(),
            trait_type_args: self.trait_type_args.deep_view(),
            target_type: self.target_type.deep_view(),
            dict_name: self.dict_name.deep_view(),
            arity: self.arity.deep_view(),
            param_constraints: self.param_constraints.deep_view(),
            impl_effects: self.impl_effects.deep_view(),
        }
    }
}

impl Dup for TraitImplDict {
    fn dup(&self) -> (r: Self) {
        TraitImplDict {
            trait_name: self.trait_name.dup(),
            trait_type_args: self.trait_type_args.dup(),
            target_type: self.target_type.dup(),
            dict_name: self.dict_name.dup(),
            arity: self.arity.dup(),
            param_constraints: self.param_constraints.dup(),
            impl_effects: self.impl_effects.dup(),
        }
    }
}

/// What code generation needs to know of a module's exports.
pub struct ModuleCodegenInfo {
    pub exports: Vec<(String, Scheme)>,
    pub export_origins: Vec<(String, String)>,
    pub effect_origins: Vec<(String, String)>,
    /// All effects, private ones too.
    pub effect_defs: Vec<EffectDef>,
    pub record_fields: Vec<(String, Vec<String>)>,
    pub handler_defs: Vec<String>,
    pub handler_origins: Vec<(String, String)>,
    /// Public functions with their effects, in order.
    pub fun_effects: Vec<(String, Vec<String>)>,
    pub type_constructors: Vec<(String, Vec<String>)>,
    pub trait_impl_dicts: Vec<TraitImplDict>,
    /// Name, Erlang module, Erlang function and arity.
    pub external_funs: Vec<(String, String, String, usize)>,
    pub intrinsic_exports: Vec<(String, IntrinsicId)>,
}

#[verifier::ext_equal]
pub struct CodegenModel {
    pub exports: Seq<(Seq<char>, SchemeModel)>,
    pub export_origins: Seq<(Seq<char>, Seq<char>)>,
    pub effect_origins: Seq<(Seq<char>, Seq<char>)>,
    pub effect_defs: Seq<EffectDefModel>,
    pub record_fields: Seq<(Seq<char>, Seq<Seq<char>>)>,
    pub handler_defs: Seq<Seq<char>>,
    pub handler_origins: Seq<(Seq<char>, Seq<char>)>,
    pub fun_effects: Seq<(Seq<char>, Seq<Seq<char>>)>,
    pub type_constructors: Seq<(Seq<char>, Seq<Seq<char>>)>,
    pub trait_impl_dicts: Seq<ImplDictModel>,
    pub external_funs: Seq<(Seq<char>, Seq<char>, Seq<char>, usize)>,
    pub intrinsic_exports: Seq<(Seq<char>, IntrinsicId)>,
}

impl DeepView for ModuleCodegenInfo {
    type V = CodegenModel;

    open spec fn deep_view(&self) -> CodegenModel {
        CodegenModel {
            exports: self.exports.deep_view(),
            export_origins: self.export_origins.deep_view(),
            effect_origins: self.effect_origins.deep_view(),
            effect_defs: self.effect_defs.deep_view(),
            record_fields: self.record_fields.deep_view(),
            handler_defs: self.handler_defs.deep_view(),
            handler_origins: self.handler_origins.deep_view(),
            fun_effects: self.fun_effects.deep_view(),
            type_constructors: self.type_constructors.deep_view(),
            trait_impl_dicts: self.trait_impl_dicts.deep_view(),
            external_funs: self.external_funs.deep_view(),
            intrinsic_exports: self.intrinsic_exports.deep_view(),
        }
    }
}

impl Dup for ModuleCodegenInfo {
    fn dup(&self) -> (r: Self) {
        ModuleCodegenInfo {
            exports: self.exports.dup(),
            export_origins: self.export_origins.dup(),
            effect_origins: self.effect_origins.dup(),
            effect_defs: self.effect_defs.dup(),
            record_fields: self.record_fields.dup(),
            handler_defs: self.handler_defs.dup(),
            handler_origins: self.handler_origins.dup(),
            fun_effects: self.fun_effects.dup(),
            type_constructors: self.type_constructors.dup(),
            trait_impl_dicts: self.trait_impl_dicts.dup(),
            external_funs: self.external_funs.dup(),
            intrinsic_exports: self.intrinsic_exports.dup(),
        }
    }
}

/// The parts of a text between its dots.
pub open spec fn segments(s: Seq<char>) -> Seq<Seq<char>>
    decreases s.len(),
{
    if s.len() == 0 {
        seq![Seq::empty()]
    } else {
        let init = segments(s.drop_last());
        if s.last() == '.' {
            init.push(Seq::empty())
        } else {
            init.update(init.len() - 1, init.last().push(s.last()))
        }
    }
}

/// The parts of a text between its dots.
pub fn split_dots(s: &str) -> (r: Vec<String>)
    ensures
        r.deep_view() == segments(s@),
{
    let chars = chars_of(s);
    let ghost all = chars@;
    let mut out: Vec<String> = Vec::new();
    let mut current = String::new();
    let mut i: usize = 0;
    proof {
        assert(all.take(0) =~= Seq::empty());
        assert(out.deep_view().push(current@) =~= segments(all.take(0)));
    }
    while i < chars.len()
        invariant
            i <= chars.len(),
            all == chars@,
            out.deep_view().push(current@) == segments(all.take(i as int)),
        decreases chars.len() - i,
    {
        let ghost before = segments(all.take(i as int));
        let ghost out0 = out.deep_view();
        let ghost current0 = current@;
        proof {
            assert(all.take(i + 1).drop_last() =~= all.take(i as int));
            assert(all.take(i + 1).last() == all[i as int]);
            assert(before.len() == out0.len() + 1);
            assert(before.last() == current0);
        }
        if chars[i] == '.' {
            push_value(&mut out, current);
            current = String::new();
            assert(out.deep_view().push(current@) =~= before.push(Seq::empty()));
        } else {
            current.push(chars[i]);
            assert(out.deep_view().push(current@) =~= before.update(
                before.len() - 1,
                before.last().push(all[i as int]),
            ));
        }
        i = i + 1;
    }
    assert(all.take(i as int) =~= all);
    push_value(&mut out, current);
    out
}

/// The Erlang module of a module: its name in lowercase, with underscores for the
/// dots.
pub open spec fn erlang_module_of(module: Seq<char>) -> Seq<char> {
    joined(segments(module).map_values(|s: Seq<char>| lowercase(s)), "_"@)
}

fn lowercase_all(v: &Vec<String>) -> (r: Vec<String>)
    ensures
        r.deep_view() == v.deep_view().map_values(|x: Seq<char>| lowercase(x)),
{
    let mut out: Vec<String> = Vec::new();
    let mut i: usize = 0;
    while i < v.len()
        invariant
            i <= v.len(),
            out.len() == i,
            forall|j: int|
                0 <= j < i ==> #[trigger] out.deep_view()[j] == lowercase(v.deep_view()[j]),
        decreases v.len() - i,
    {
        push_value(&mut out, to_lowercase(v[i].as_str()));
        i = i + 1;
    }
    assert(out.deep_view() =~= v.deep_view().map_values(|x: Seq<char>| lowercase(x)));
    out
}

/// The Erlang module of a module.
pub fn erlang_module_name(module: &str) -> (r: String)
    ensures
        r@ == erlang_module_of(module@),
{
    let parts = split_dots(module);
    let lowered = lowercase_all(&parts);
    join_text(&lowered, "_")
}

/// The effects on the arrows of a function type, outermost first.
pub open spec fn arrow_effects(t: Ty) -> Seq<Seq<char>>
    decreases t,
{
    match t {
        Ty::Fun(_, ret, row) => row.effects.map_values(|e: Entry| e.name) + arrow_effects(*ret),
        _ => Seq::empty(),
    }
}

/// Whether one of the arrows of a function type has an open row.
pub open spec fn open_along(t: Ty) -> bool
    decreases t,
{
    match t {
        Ty::Fun(_, ret, row) => row.tails.len() > 0 || open_along(*ret),
        _ => false,
    }
}

/// The number of arrows of a function type.
pub open spec fn arrow_count(t: Ty) -> nat
    decreases t,
{
    match t {
        Ty::Fun(_, ret, _) => 1 + arrow_count(*ret),
        _ => 0,
    }
}

fn add_arrow_effects(t: &Type, out: &mut Vec<String>)
    ensures
        final(out).deep_view() == old(out).deep_view() + arrow_effects(t@),
    decreases t,
{
    broadcast use group_type_models;

    let ghost out0 = out.deep_view();
    if let Type::Fun(_, ret, row) = t {
        let ghost names = row.effects.deep_view().map_values(|e: Entry| e.name);
        let mut i: usize = 0;
        assert(out0 + names.take(0) =~= out0);
        while i < row.effects.len()
            invariant
                i <= row.effects.len(),
                names == row.effects.deep_view().map_values(|e: Entry| e.name),
                out.deep_view() == out0 + names.take(i as int),
            decreases row.effects.len() - i,
        {
            proof {
                crate::types::entry_model_parts(row.effects@[i as int]);
                assert(names[i as int] == row.effects@[i as int].name@);
                assert(out0 + names.take(i + 1) =~= (out0 + names.take(i as int)).push(
                    names[i as int],
                ));
            }
            push_value(out, row.effects[i].name.clone());
            i = i + 1;
        }
        assert(names.take(i as int) =~= names);
        add_arrow_effects(ret, out);
        assert(out.deep_view() =~= out0 + (names + arrow_effects(ret@)));
    } else {
        assert(out0 + Seq::<Seq<char>>::empty() =~= out0);
    }
}

/// The effects on the arrows of a function type, in order, each once.
pub fn collect_effects_from_fun_type(t: &Type) -> (r: Vec<String>)
    ensures
        r.deep_view() == ordered(arrow_effects(t@).to_set()),
{
    let mut names: Vec<String> = Vec::new();
    assert(names.deep_view() =~= Seq::empty());
    add_arrow_effects(t, &mut names);
    assert(names.deep_view() =~= arrow_effects(t@));
    let r = ordered_set(&names);
    proof {
        ordered_is(r.deep_view(), arrow_effects(t@).to_set());
    }
    r
}

/// Whether one of the arrows of a function type has an open row.
pub fn has_open_effect_row(t: &Type) -> (r: bool)
    ensures
        r == open_along(t@),
    decreases t,
{
    broadcast use group_type_models;

    match t {
        Type::Fun(_, ret, row) => {
            assert(row.tails.deep_view().len() == row.tails.len());
            row.tails.len() > 0 || has_open_effect_row(ret)
        },
        _ => false,
    }
}

/// The number of arrows of a constructor's type.
pub fn ctor_arity(t: &Type) -> (r: usize)
    requires
        arrow_count(t@) <= usize::MAX,
    ensures
        r == arrow_count(t@),
    decreases t,
{
    broadcast use group_type_models;

    match t {
        Type::Fun(_, ret, _) => 1 + ctor_arity(ret),
        _ => 0,
    }
}

/// The effects of the callback parameters among some parameters.
pub open spec fn absorbed(params: Seq<(Seq<char>, Ty)>) -> Seq<(usize, Seq<Seq<char>>)>
    decreases params.len(),
{
    if params.len() == 0 {
        Seq::empty()
    } else {
        let init = absorbed(params.drop_last());
        let effects = ordered(arrow_effects(params.last().1).to_set());
        if effects.len() > 0 {
            crate::table::put(init, (params.len() - 1) as usize, effects)
        } else {
            init
        }
    }
}

/// The positions of the parameters with an open effect row.
pub open spec fn open_rows(params: Seq<(Seq<char>, Ty)>) -> Seq<usize>
    decreases params.len(),
{
    if params.len() == 0 {
        Seq::empty()
    } else {
        let init = open_rows(params.drop_last());
        if open_along(params.last().1) {
            init.push((params.len() - 1) as usize)
        } else {
            init
        }
    }
}

/// The effects of the callback parameters of an operation.
pub fn effect_param_absorbed_effects(op: &EffectOpSig) -> (r: Table<usize, Vec<String>>)
    ensures
        r.order() == absorbed(op.deep_view().params),
{
    let ghost all = op.deep_view().params;
    let mut out: Table<usize, Vec<String>> = Table::new();
    let mut i: usize = 0;
    assert(all.take(0) =~= Seq::empty());
    while i < op.params.len()
        invariant
            i <= op.params.len(),
            all == op.params.deep_view(),
            out.order() == absorbed(all.take(i as int)),
        decreases op.params.len() - i,
    {
        proof {
            assert(all.take(i + 1).drop_last() =~= all.take(i as int));
            assert(all.take(i + 1).last() == all[i as int]);
        }
        let effects = collect_effects_from_fun_type(&op.params[i].1);
        assert(effects.deep_view().len() == effects.len());
        if effects.len() > 0 {
            out.insert(i, effects);
        }
        i = i + 1;
    }
    assert(all.take(i as int) =~= all);
    out
}

/// The positions of an operation's parameters with an open effect row.
pub fn effect_param_open_rows(op: &EffectOpSig) -> (r: Vec<usize>)
    ensures
        r.deep_view() == open_rows(op.deep_view().params),
{
    let ghost all = op.deep_view().params;
    let mut out: Vec<usize> = Vec::new();
    let mut i: usize = 0;
    assert(all.take(0) =~= Seq::empty());
    assert(out.deep_view() =~= Seq::empty());
    while i < op.params.len()
        invariant
            i <= op.params.len(),
            all == op.params.deep_view(),
            out.deep_view() == open_rows(all.take(i as int)),
        decreases op.params.len() - i,
    {
        proof {
            assert(all.take(i + 1).drop_last() =~= all.take(i as int));
            assert(all.take(i + 1).last() == all[i as int]);
        }
        if has_open_effect_row(&op.params[i].1) {
            push_value(&mut out, i);
        }
        i = i + 1;
    }
    assert(all.take(i as int) =~= all);
    out
}

/// Whether a written type is `Unit`, which stands for no argument at run time.
pub open spec fn is_unit_expr(t: TypeExpr) -> bool
    decreases t,
{
    match t {
        TypeExpr::Named { name, .. } => canonical_type_name(name@) == canonical_type_name("Unit"@),
        TypeExpr::Labeled { inner, .. } => is_unit_expr(*inner),
        _ => false,
    }
}

fn is_runtime_unit_param(t: &TypeExpr) -> (r: bool)
    ensures
        r == is_unit_expr(*t),
    decreases t,
{
    match t {
        TypeExpr::Named { name, .. } => text_eq(
            canonicalize_type_name(name.as_str()),
            canonicalize_type_name("Unit"),
        ),
        TypeExpr::Labeled { inner, .. } => is_runtime_unit_param(inner),
        _ => false,
    }
}

/// Whether a type is `Unit`.
pub open spec fn is_unit_ty(t: Ty) -> bool {
    match t {
        Ty::Con(name, args) => args.len() == 0 && canonical_type_name(name) == canonical_type_name(
            "Unit"@,
        ),
        _ => false,
    }
}

fn is_unit_type(t: &Type) -> (r: bool)
    ensures
        r == is_unit_ty(t@),
{
    broadcast use group_type_models;

    match t {
        Type::Con(name, args) => {
            assert(args.deep_view().len() == args.len());
            args.len() == 0 && text_eq(
                canonicalize_type_name(name.as_str()),
                canonicalize_type_name("Unit"),
            )
        },
        _ => false,
    }
}

/// The positions of the parameters that are there at run time.
pub open spec fn written_positions(params: Seq<(String, TypeExpr)>) -> Seq<usize>
    decreases params.len(),
{
    if params.len() == 0 {
        Seq::empty()
    } else {
        let init = written_positions(params.drop_last());
        if is_unit_expr(params.last().1) {
            init
        } else {
            init.push((params.len() - 1) as usize)
        }
    }
}

pub open spec fn typed_positions(params: Seq<(Seq<char>, Ty)>) -> Seq<usize>
    decreases params.len(),
{
    if params.len() == 0 {
        Seq::empty()
    } else {
        let init = typed_positions(params.drop_last());
        if is_unit_ty(params.last().1) {
            init
        } else {
            init.push((params.len() - 1) as usize)
        }
    }
}

fn runtime_positions(params: &Vec<(String, TypeExpr)>) -> (r: Vec<usize>)
    ensures
        r.deep_view() == written_positions(params@),
{
    let ghost all = params@;
    let mut out: Vec<usize> = Vec::new();
    let mut i: usize = 0;
    assert(all.take(0) =~= Seq::empty());
    assert(out.deep_view() =~= Seq::empty());
    while i < params.len()
        invariant
            i <= params.len(),
            all == params@,
            out.deep_view() == written_positions(all.take(i as int)),
        decreases params.len() - i,
    {
        proof {
            assert(all.take(i + 1).drop_last() =~= all.take(i as int));
            assert(all.take(i + 1).last() == all[i as int]);
        }
        if !is_runtime_unit_param(&params[i].1) {
            push_value(&mut out, i);
        }
        i = i + 1;
    }
    assert(all.take(i as int) =~= all);
    out
}

fn runtime_typed_positions(params: &Vec<(String, Type)>) -> (r: Vec<usize>)
    ensures
        r.deep_view() == typed_positions(params.deep_view()),
{
    let ghost all = params.deep_view();
    let mut out: Vec<usize> = Vec::new();
    let mut i: usize = 0;
    assert(all.take(0) =~= Seq::empty());
    assert(out.deep_view() =~= Seq::empty());
    while i < params.len()
        invariant
            i <= params.len(),
            all == params.deep_view(),
            out.deep_view() == typed_positions(all.take(i as int)),
        decreases params.len() - i,
    {
        proof {
            assert(all.take(i + 1).drop_last() =~= all.take(i as int));
            assert(all.take(i + 1).last() == all[i as int]);
        }
        if !is_unit_type(&params[i].1) {
            push_value(&mut out, i);
        }
        i = i + 1;
    }
    assert(all.take(i as int) =~= all);
    out
}

/// The signature of an operation of an effect, if the effect has it: the first of
/// that name.
pub open spec fn sig_named(ops: Seq<OpModel>, name: Seq<char>) -> Option<OpModel>
    decreases ops.len(),
{
    if ops.len() == 0 {
        None
    } else {
        match sig_named(ops.drop_last(), name) {
            Some(op) => Some(op),
            None => if ops.last().name == name {
                Some(ops.last())
            } else {
                None
            },
        }
    }
}

proof fn sig_named_stays(ops: Seq<OpModel>, name: Seq<char>, n: int)
    requires
        0 <= n <= ops.len(),
        sig_named(ops.take(n), name) is Some,
    ensures
        sig_named(ops, name) == sig_named(ops.take(n), name),
    decreases ops.len(),
{
    if n < ops.len() {
        assert(ops.drop_last().take(n) =~= ops.take(n));
        sig_named_stays(ops.drop_last(), name, n);
    } else {
        assert(ops.take(n) =~= ops);
    }
}

/// The signature of an operation of an effect.
pub fn find_op<'a>(ops: &'a Vec<EffectOpSig>, name: &str) -> (r: Option<&'a EffectOpSig>)
    ensures
        r.deep_view() == sig_named(ops.deep_view(), name@),
{
    let ghost all = ops.deep_view();
    let mut i: usize = 0;
    assert(all.take(0) =~= Seq::empty());
    while i < ops.len()
        invariant
            i <= ops.len(),
            all == ops.deep_view(),
            sig_named(all.take(i as int), name@) is None,
        decreases ops.len() - i,
    {
        proof {
            assert(all.take(i + 1).drop_last() =~= all.take(i as int));
            assert(all.take(i + 1).last() == all[i as int]);
        }
        if text_eq(ops[i].name.as_str(), name) {
            proof {
                sig_named_stays(all, name@, i + 1);
            }
            return Some(&ops[i]);
        }
        i = i + 1;
    }
    assert(all.take(i as int) =~= all);
    None
}

/// The name of the dictionary parameter for a trait of a type variable.
pub open spec fn dict_param(var: Seq<char>, t: TraitRef) -> Seq<char> {
    "__dict_"@ + t.name@ + "_"@ + var
}

pub open spec fn with_dict_params(names: Seq<Seq<char>>, b: TraitBound) -> Seq<Seq<char>> {
    names + b.traits@.map_values(|t: TraitRef| dict_param(b.type_var@, t))
}

/// The dictionary parameters for a where clause.
pub open spec fn dict_params(acc: Seq<Seq<char>>, items: Seq<TraitBound>) -> Seq<Seq<char>>
    decreases items.len(),
{
    if items.len() == 0 {
        acc
    } else {
        with_dict_params(dict_params(acc, items.drop_last()), items.last())
    }
}

fn add_dict_params(names: &mut Vec<String>, b: &TraitBound)
    ensures
        final(names).deep_view() == with_dict_params(old(names).deep_view(), *b),
{
    let ghost names0 = names.deep_view();
    let ghost more = b.traits@.map_values(|t: TraitRef| dict_param(b.type_var@, t));
    let mut i: usize = 0;
    assert(names0 + more.take(0) =~= names0);
    while i < b.traits.len()
        invariant
            i <= b.traits.len(),
            more == b.traits@.map_values(|t: TraitRef| dict_param(b.type_var@, t)),
            names.deep_view() == names0 + more.take(i as int),
        decreases b.traits.len() - i,
    {
        assert(names0 + more.take(i + 1) =~= (names0 + more.take(i as int)).push(more[i as int]));
        push_value(
            names,
            concat4("__dict_", b.traits[i].name.as_str(), "_", b.type_var.as_str()),
        );
        i = i + 1;
    }
    assert(more.take(i as int) =~= more);
}

fn add_all_dict_params(acc: &mut Vec<String>, items: &Vec<TraitBound>)
    ensures
        final(acc).deep_view() == dict_params(old(acc).deep_view(), items@),
{
    let ghost a0 = acc.deep_view();
    let ghost all = items@;
    let mut i: usize = 0;
    assert(all.take(0) =~= Seq::empty());
    while i < items.len()
        invariant
            i <= items.len(),
            all == items@,
            acc.deep_view() == dict_params(a0, all.take(i as int)),
        decreases items.len() - i,
    {
        proof {
            assert(all.take(i + 1).drop_last() =~= all.take(i as int));
            assert(all.take(i + 1).last() == all[i as int]);
        }
        add_dict_params(acc, &items[i]);
        i = i + 1;
    }
    assert(all.take(i as int) =~= all);
}

/// The dictionary parameters for an operation's where clause.
pub fn op_dict_param_names(where_clause: &Vec<TraitBound>) -> (r: Vec<String>)
    ensures
        r.deep_view() == dict_params(Seq::empty(), where_clause@),
{
    let mut names: Vec<String> = Vec::new();
    assert(names.deep_view() =~= Seq::empty());
    add_all_dict_params(&mut names, where_clause);
    names
}

/// A declared operation as code generation sees it.
pub open spec fn op_def(info: EffectModel, op: EffectOp) -> OpDefModel {
    let positions = written_positions(op.params@);
    let sig = sig_named(info.ops, op.name@);
    OpDefModel {
        name: op.name@,
        source_param_count: op.params@.len() as usize,
        runtime_param_count: positions.len() as usize,
        runtime_param_positions: positions,
        param_absorbed_effects: match sig {
            Some(sig) => absorbed(sig.params),
            None => Seq::empty(),
        },
        param_open_rows: match sig {
            Some(sig) => open_rows(sig.params),
            None => Seq::empty(),
        },
        dict_param_names: dict_params(Seq::empty(), op.where_clause@),
    }
}

/// A registered operation as code generation sees it.
pub open spec fn sig_def(op: OpModel) -> OpDefModel {
    let positions = typed_positions(op.params);
    OpDefModel {
        name: op.name,
        source_param_count: op.params.len() as usize,
        runtime_param_count: positions.len() as usize,
        runtime_param_positions: positions,
        param_absorbed_effects: absorbed(op.params),
        param_open_rows: open_rows(op.params),
        dict_param_names: Seq::empty(),
    }
}

fn op_defs(info: &EffectDefInfo, v: &Vec<EffectOp>) -> (r: Vec<EffectOpDef>)
    ensures
        r.deep_view() == v@.map_values(|x: EffectOp| op_def(info.deep_view(), x)),
{
    let mut out: Vec<EffectOpDef> = Vec::new();
    let mut i: usize = 0;
    while i < v.len()
        invariant
            i <= v.len(),
            out.len() == i,
            forall|j: int| 0 <= j < i ==> #[trigger] out.deep_view()[j] == op_def(
                info.deep_view(),
                v@[j],
            ),
        decreases v.len() - i,
    {
        let op = &v[i];
        let positions = runtime_positions(&op.params);
        assert(positions.deep_view().len() == positions.len());
        let none: Vec<usize> = Vec::new();
        assert(none.deep_view() =~= Seq::empty());
        let sig = find_op(&info.ops, op.name.as_str());
        let absorbed_effects = match sig {
            Some(sig) => effect_param_absorbed_effects(sig),
            None => Table::new(),
        };
        let open = match sig {
            Some(sig) => effect_param_open_rows(sig),
            None => none,
        };
        let d = EffectOpDef {
            name: op.name.clone(),
            source_param_count: op.params.len(),
            runtime_param_count: positions.len(),
            runtime_param_positions: positions,
            param_absorbed_effects: absorbed_effects,
            param_open_rows: open,
            dict_param_names: op_dict_param_names(&op.where_clause),
        };
        push_value(&mut out, d);
        i = i + 1;
    }
    assert(out.deep_view() =~= v@.map_values(|x: EffectOp| op_def(info.deep_view(), x)));
    out
}

fn sig_defs(v: &Vec<EffectOpSig>) -> (r: Vec<EffectOpDef>)
    ensures
        r.deep_view() == v.deep_view().map_values(|x: OpModel| sig_def(x)),
{
    let mut out: Vec<EffectOpDef> = Vec::new();
    let mut i: usize = 0;
    while i < v.len()
        invariant
            i <= v.len(),
            out.len() == i,
            forall|j: int|
                0 <= j < i ==> #[trigger] out.deep_view()[j] == sig_def(v.deep_view()[j]),
        decreases v.len() - i,
    {
        let op = &v[i];
        let positions = runtime_typed_positions(&op.params);
        assert(positions.deep_view().len() == positions.len());
        assert(op.params.deep_view().len() == op.params.len());
        let names: Vec<String> = Vec::new();
        assert(names.deep_view() =~= Seq::empty());
        let d = EffectOpDef {
            name: op.name.clone(),
            source_param_count: op.params.len(),
            runtime_param_count: positions.len(),
            runtime_param_positions: positions,
            param_absorbed_effects: effect_param_absorbed_effects(op),
            param_open_rows: effect_param_open_rows(op),
            dict_param_names: names,
        };
        push_value(&mut out, d);
        i = i + 1;
    }
    assert(out.deep_view() =~= v.deep_view().map_values(|x: OpModel| sig_def(x)));
    out
}

/// What a type name stands for in a scope.
pub open spec fn canonical_in(s: ScopeModel, name: Seq<char>) -> Seq<char> {
    match lookup(s.types, name) {
        Some(canonical) => canonical,
        None => canonical_type_name(name),
    }
}

fn canonical_type_in(scope: &ScopeMap, name: &str) -> (r: String)
    ensures
        r@ == canonical_in(scope.deep_view(), name@),
{
    match scope.resolve_type(name) {
        Some(canonical) => canonical.clone(),
        None => canonicalize_type_name(name).to_owned(),
    }
}

/// The name of a trait argument: that of a variable as it is, otherwise what the
/// head of the type stands for.
pub open spec fn trait_arg_name(s: ScopeModel, t: TypeExpr) -> Seq<char> {
    match t {
        TypeExpr::Var { name, .. } => name@,
        _ => canonical_in(
            s,
            match head_name_of(t) {
                Some(head) => head,
                None => Seq::empty(),
            },
        ),
    }
}

/// A trait argument as it stands in the name of a dictionary.
pub open spec fn canonical_trait_arg(s: ScopeModel, t: TypeExpr) -> Seq<char> {
    let name = trait_arg_name(s, t);
    if names_type(name) || name.contains('.') {
        canonical_in(s, name)
    } else {
        name
    }
}

fn canonical_trait_args(scope: &ScopeMap, v: &Vec<TypeExpr>) -> (r: Vec<String>)
    ensures
        r.deep_view() == v@.map_values(|x: TypeExpr| canonical_trait_arg(scope.deep_view(), x)),
{
    let mut out: Vec<String> = Vec::new();
    let mut i: usize = 0;
    while i < v.len()
        invariant
            i <= v.len(),
            out.len() == i,
            forall|j: int| 0 <= j < i ==> #[trigger] out.deep_view()[j] == canonical_trait_arg(
                scope.deep_view(),
                v@[j],
            ),
        decreases v.len() - i,
    {
        let name = match &v[i] {
            TypeExpr::Var { name, .. } => name.clone(),
            t => match t.head_name() {
                Some(head) => canonical_type_in(scope, head.as_str()),
                None => {
                    let none = String::new();
                    assert(none@ =~= Seq::empty());
                    canonical_type_in(scope, none.as_str())
                },
            },
        };
        let arg = if is_type_name(name.as_str()) || has_char(name.as_str(), '.') {
            canonical_type_in(scope, name.as_str())
        } else {
            name
        };
        push_value(&mut out, arg);
        i = i + 1;
    }
    assert(out.deep_view() =~= v@.map_values(|x: TypeExpr| canonical_trait_arg(
        scope.deep_view(),
        x,
    )));
    out
}

/// Whether a trait has dictionaries: arithmetic and equality are built in.
pub open spec fn has_dictionary(name: Seq<char>) -> bool {
    name != "Num"@ && name != "Eq"@
}

fn needs_dictionary(name: &str) -> (r: bool)
    ensures
        r == has_dictionary(name@),
{
    !text_eq(name, "Num") && !text_eq(name, "Eq")
}

/// Whether a constraint comes with a dictionary: its first argument is a variable.
pub open spec fn app_has_dictionary(app: TraitApp) -> bool {
    has_dictionary(app.trait_name@) && app.type_args@.len() > 0 && app.type_args@[0] is Var
}

/// How many of some constraints come with a dictionary.
pub open spec fn app_count(apps: Seq<TraitApp>) -> nat
    decreases apps.len(),
{
    if apps.len() == 0 {
        0
    } else {
        app_count(apps.drop_last()) + if app_has_dictionary(apps.last()) {
            1nat
        } else {
            0nat
        }
    }
}

pub open spec fn trait_count(traits: Seq<TraitRef>) -> nat
    decreases traits.len(),
{
    if traits.len() == 0 {
        0
    } else {
        trait_count(traits.drop_last()) + if has_dictionary(traits.last().name@) {
            1nat
        } else {
            0nat
        }
    }
}

/// How many of the traits of a where clause come with a dictionary.
pub open spec fn bound_count(bounds: Seq<TraitBound>) -> nat
    decreases bounds.len(),
{
    if bounds.len() == 0 {
        0
    } else {
        bound_count(bounds.drop_last()) + trait_count(bounds.last().traits@)
    }
}

proof fn app_count_grows(apps: Seq<TraitApp>, n: int)
    requires
        0 <= n <= apps.len(),
    ensures
        app_count(apps.take(n)) <= app_count(apps),
    decreases apps.len(),
{
    if n < apps.len() {
        assert(apps.drop_last().take(n) =~= apps.take(n));
        app_count_grows(apps.drop_last(), n);
    } else {
        assert(apps.take(n) =~= apps);
    }
}

proof fn trait_count_grows(traits: Seq<TraitRef>, n: int)
    requires
        0 <= n <= traits.len(),
    ensures
        trait_count(traits.take(n)) <= trait_count(traits),
    decreases traits.len(),
{
    if n < traits.len() {
        assert(traits.drop_last().take(n) =~= traits.take(n));
        trait_count_grows(traits.drop_last(), n);
    } else {
        assert(traits.take(n) =~= traits);
    }
}

proof fn bound_count_grows(bounds: Seq<TraitBound>, n: int)
    requires
        0 <= n <= bounds.len(),
    ensures
        bound_count(bounds.take(n)) <= bound_count(bounds),
    decreases bounds.len(),
{
    if n < bounds.len() {
        assert(bounds.drop_last().take(n) =~= bounds.take(n));
        bound_count_grows(bounds.drop_last(), n);
    } else {
        assert(bounds.take(n) =~= bounds);
    }
}

/// The number of dictionary parameters of an impl.
fn dictionary_arity(where_apps: &Vec<TraitApp>, where_clause: &Vec<TraitBound>) -> (n: usize)
    requires
        app_count(where_apps@) + bound_count(where_clause@) <= usize::MAX,
    ensures
        n == app_count(where_apps@) + bound_count(where_clause@),
{
    let mut n: usize = 0;
    let mut i: usize = 0;
    assert(where_apps@.take(0) =~= Seq::empty());
    while i < where_apps.len()
        invariant
            i <= where_apps.len(),
            n == app_count(where_apps@.take(i as int)),
            app_count(where_apps@) + bound_count(where_clause@) <= usize::MAX,
        decreases where_apps.len() - i,
    {
        let app = &where_apps[i];
        proof {
            assert(where_apps@.take(i + 1).drop_last() =~= where_apps@.take(i as int));
            app_count_grows(where_apps@, i + 1);
        }
        let first_is_var = if app.type_args.len() > 0 {
            match &app.type_args[0] {
                TypeExpr::Var { .. } => true,
                _ => false,
            }
        } else {
            false
        };
        if needs_dictionary(app.trait_name.as_str()) && first_is_var {
            n = n + 1;
        }
        i = i + 1;
    }
    assert(where_apps@.take(i as int) =~= where_apps@);
    let mut i: usize = 0;
    assert(where_clause@.take(0) =~= Seq::empty());
    while i < where_clause.len()
        invariant
            i <= where_clause.len(),
            n == app_count(where_apps@) + bound_count(where_clause@.take(i as int)),
            app_count(where_apps@) + bound_count(where_clause@) <= usize::MAX,
        decreases where_clause.len() - i,
    {
        let traits = &where_clause[i].traits;
        let ghost n0 = n as nat;
        proof {
            assert(where_clause@.take(i + 1).drop_last() =~= where_clause@.take(i as int));
            bound_count_grows(where_clause@, i + 1);
            assert(traits@.take(0) =~= Seq::empty());
        }
        let mut j: usize = 0;
        while j < traits.len()
            invariant
                j <= traits.len(),
                n == n0 + trait_count(traits@.take(j as int)),
                n0 + trait_count(traits@) <= usize::MAX,
            decreases traits.len() - j,
        {
            proof {
                assert(traits@.take(j + 1).drop_last() =~= traits@.take(j as int));
                trait_count_grows(traits@, j + 1);
            }
            if needs_dictionary(traits[j].name.as_str()) {
                n = n + 1;
            }
            j = j + 1;
        }
        assert(traits@.take(j as int) =~= traits@);
        i = i + 1;
    }
    assert(where_clause@.take(i as int) =~= where_clause@);
    n
}

/// The position of a type parameter: the last of that name, the first parameter
/// where there is none.
pub open spec fn param_position(params: Seq<TypeParam>, name: Seq<char>) -> usize
    decreases params.len(),
{
    if params.len() == 0 {
        0
    } else if params.last().name@ == name {
        (params.len() - 1) as usize
    } else {
        param_position(params.drop_last(), name)
    }
}

fn position_of_param(params: &Vec<TypeParam>, name: &str) -> (r: usize)
    ensures
        r == param_position(params@, name@),
{
    let mut r: usize = 0;
    let mut i: usize = 0;
    assert(params@.take(0) =~= Seq::empty());
    while i < params.len()
        invariant
            i <= params.len(),
            r == param_position(params@.take(i as int), name@),
        decreases params.len() - i,
    {
        assert(params@.take(i + 1).drop_last() =~= params@.take(i as int));
        if text_eq(params[i].name.as_str(), name) {
            r = i;
        }
        i = i + 1;
    }
    assert(params@.take(i as int) =~= params@);
    r
}

pub open spec fn trait_in_scope(s: ScopeModel, name: Seq<char>) -> Seq<char> {
    match lookup(s.traits, name) {
        Some(canonical) => canonical,
        None => name,
    }
}

pub open spec fn with_bound_constraints(
    s: ScopeModel,
    params: Seq<TypeParam>,
    out: Seq<(Seq<char>, usize)>,
    b: TraitBound,
) -> Seq<(Seq<char>, usize)> {
    let position = param_position(params, b.type_var@);
    out + b.traits@.map_values(|t: TraitRef| (trait_in_scope(s, t.name@), position))
}

/// The traits of a where clause with the positions of the parameters that need them.
pub open spec fn bound_constraints(
    s: ScopeModel,
    params: Seq<TypeParam>,
    acc: Seq<(Seq<char>, usize)>,
    items: Seq<TraitBound>,
) -> Seq<(Seq<char>, usize)>
    decreases items.len(),
{
    if items.len() == 0 {
        acc
    } else {
        with_bound_constraints(
            s,
            params,
            bound_constraints(s, params, acc, items.drop_last()),
            items.last(),
        )
    }
}

fn add_bound_constraints(
    s: &ScopeMap,
    params: &Vec<TypeParam>,
    out: &mut Vec<(String, usize)>,
    b: &TraitBound,
)
    ensures
        final(out).deep_view() == with_bound_constraints(
            s.deep_view(),
            params@,
            old(out).deep_view(),
            *b,
        ),
{
    let position = position_of_param(params, b.type_var.as_str());
    let ghost out0 = out.deep_view();
    let ghost more = b.traits@.map_values(
        |t: TraitRef| (trait_in_scope(s.deep_view(), t.name@), position),
    );
    let mut i: usize = 0;
    assert(out0 + more.take(0) =~= out0);
    while i < b.traits.len()
        invariant
            i <= b.traits.len(),
            more == b.traits@.map_values(
                |t: TraitRef| (trait_in_scope(s.deep_view(), t.name@), position),
            ),
            out.deep_view() == out0 + more.take(i as int),
        decreases b.traits.len() - i,
    {
        assert(out0 + more.take(i + 1) =~= (out0 + more.take(i as int)).push(more[i as int]));
        let resolved = match s.resolve_trait(b.traits[i].name.as_str()) {
            Some(canonical) => canonical.clone(),
            None => b.traits[i].name.clone(),
        };
        push_value(out, (resolved, position));
        i = i + 1;
    }
    assert(more.take(i as int) =~= more);
}

fn add_all_bound_constraints(
    s: &ScopeMap,
    params: &Vec<TypeParam>,
    acc: &mut Vec<(String, usize)>,
    items: &Vec<TraitBound>,
)
    ensures
        final(acc).deep_view() == bound_constraints(
            s.deep_view(),
            params@,
            old(acc).deep_view(),
            items@,
        ),
{
    let ghost a0 = acc.deep_view();
    let ghost all = items@;
    let mut i: usize = 0;
    assert(all.take(0) =~= Seq::empty());
    while i < items.len()
        invariant
            i <= items.len(),
            all == items@,
            acc.deep_view() == bound_constraints(s.deep_view(), params@, a0, all.take(i as int)),
        decreases items.len() - i,
    {
        proof {
            assert(all.take(i + 1).drop_last() =~= all.take(i as int));
            assert(all.take(i + 1).last() == all[i as int]);
        }
        add_bound_constraints(s, params, acc, &items[i]);
        i = i + 1;
    }
    assert(all.take(i as int) =~= all);
}

pub open spec fn effect_in_scope(s: ScopeModel, e: EffectRef) -> Seq<char> {
    match lookup(s.effects, e.name@) {
        Some(canonical) => canonical,
        None => e.name@,
    }
}

fn effects_in_scope(s: &ScopeMap, v: &Vec<EffectRef>) -> (r: Vec<String>)
    ensures
        r.deep_view() == v@.map_values(|x: EffectRef| effect_in_scope(s.deep_view(), x)),
{
    let mut out: Vec<String> = Vec::new();
    let mut i: usize = 0;
    while i < v.len()
        invariant
            i <= v.len(),
            out.len() == i,
            forall|j: int| 0 <= j < i ==> #[trigger] out.deep_view()[j] == effect_in_scope(
                s.deep_view(),
                v@[j],
            ),
        decreases v.len() - i,
    {
        let name = match s.resolve_effect(v[i].name.as_str()) {
            Some(canonical) => canonical.clone(),
            None => v[i].name.clone(),
        };
        push_value(&mut out, name);
        i = i + 1;
    }
    assert(out.deep_view() =~= v@.map_values(|x: EffectRef| effect_in_scope(s.deep_view(), x)));
    out
}

/// Whether an effect is native to the run-time system and is not threaded.
pub open spec fn is_beam_native(name: Seq<char>) -> bool {
    name == "Actor"@ || name == "Process"@ || name == "Monitor"@ || name == "Link"@ || name
        == "Timer"@
}

/// The canonical name of an effect that a function declares.
pub open spec fn declared_effect(
    module: Seq<char>,
    effects: Seq<(Seq<char>, EffectModel)>,
    s: ScopeModel,
    name: Seq<char>,
) -> Seq<char> {
    match lookup(s.effects, name) {
        Some(canonical) => canonical,
        None => if has_key(effects, name) {
            name
        } else {
            dotted(module, name)
        },
    }
}

pub open spec fn with_declared_effect(
    module: Seq<char>,
    effects: Seq<(Seq<char>, EffectModel)>,
    s: ScopeModel,
    out: Seq<Seq<char>>,
    e: EffectRef,
) -> Seq<Seq<char>> {
    if is_beam_native(e.name@) {
        out
    } else {
        out.push(declared_effect(module, effects, s, e.name@))
    }
}

/// The effects that a function declares, without those of the run-time system.
pub open spec fn declared_effects(
    module: Seq<char>,
    effects: Seq<(Seq<char>, EffectModel)>,
    s: ScopeModel,
    acc: Seq<Seq<char>>,
    items: Seq<EffectRef>,
) -> Seq<Seq<char>>
    decreases items.len(),
{
    if items.len() == 0 {
        acc
    } else {
        with_declared_effect(
            module,
            effects,
            s,
            declared_effects(module, effects, s, acc, items.drop_last()),
            items.last(),
        )
    }
}

fn add_declared_effects(
    module: &str,
    effects: &Table<String, EffectDefInfo>,
    s: &ScopeMap,
    acc: &mut Vec<String>,
    items: &Vec<EffectRef>,
)
    ensures
        final(acc).deep_view() == declared_effects(
            module@,
            effects.order(),
            s.deep_view(),
            old(acc).deep_view(),
            items@,
        ),
{
    let ghost a0 = acc.deep_view();
    let ghost all = items@;
    let mut i: usize = 0;
    assert(all.take(0) =~= Seq::empty());
    while i < items.len()
        invariant
            i <= items.len(),
            all == items@,
            acc.deep_view() == declared_effects(
                module@,
                effects.order(),
                s.deep_view(),
                a0,
                all.take(i as int),
            ),
        decreases items.len() - i,
    {
        proof {
            assert(all.take(i + 1).drop_last() =~= all.take(i as int));
            assert(all.take(i + 1).last() == all[i as int]);
        }
        let name = items[i].name.as_str();
        let native = text_eq(name, "Actor") || text_eq(name, "Process") || text_eq(name, "Monitor")
            || text_eq(name, "Link") || text_eq(name, "Timer");
        if !native {
            let canonical = match s.resolve_effect(name) {
                Some(canonical) => canonical.clone(),
                None => if effects.has_name(name) {
                    name.to_owned()
                } else {
                    dot_join(module, name)
                },
            };
            push_value(acc, canonical);
        }
        i = i + 1;
    }
    assert(all.take(i as int) =~= all);
}

/// The first annotation of a name.
pub open spec fn annotation_named(
    annotations: Seq<Annotation>,
    name: Seq<char>,
) -> Option<Annotation>
    decreases annotations.len(),
{
    if annotations.len() == 0 {
        None
    } else {
        match annotation_named(annotations.drop_last(), name) {
            Some(a) => Some(a),
            None => if annotations.last().name@ == name {
                Some(annotations.last())
            } else {
                None
            },
        }
    }
}

proof fn annotation_named_stays(annotations: Seq<Annotation>, name: Seq<char>, n: int)
    requires
        0 <= n <= annotations.len(),
        annotation_named(annotations.take(n), name) is Some,
    ensures
        annotation_named(annotations, name) == annotation_named(annotations.take(n), name),
    decreases annotations.len(),
{
    if n < annotations.len() {
        assert(annotations.drop_last().take(n) =~= annotations.take(n));
        annotation_named_stays(annotations.drop_last(), name, n);
    } else {
        assert(annotations.take(n) =~= annotations);
    }
}

/// The first annotation of a name.
pub fn find_annotation<'a>(
    annotations: &'a Vec<Annotation>,
    name: &str,
) -> (r: Option<&'a Annotation>)
    ensures
        match r {
            Some(a) => annotation_named(annotations@, name@) == Some(*a),
            None => annotation_named(annotations@, name@) is None,
        },
{
    let ghost all = annotations@;
    let mut i: usize = 0;
    assert(all.take(0) =~= Seq::empty());
    while i < annotations.len()
        invariant
            i <= annotations.len(),
            all == annotations@,
            annotation_named(all.take(i as int), name@) is None,
        decreases annotations.len() - i,
    {
        proof {
            assert(all.take(i + 1).drop_last() =~= all.take(i as int));
            assert(all.take(i + 1).last() == all[i as int]);
        }
        if text_eq(annotations[i].name.as_str(), name) {
            proof {
                annotation_named_stays(all, name@, i + 1);
            }
            return Some(&annotations[i]);
        }
        i = i + 1;
    }
    assert(all.take(i as int) =~= all);
    None
}

/// The Erlang module and function that a signature is bound to by `@external`.
pub open spec fn external_target(annotations: Seq<Annotation>) -> Option<(Seq<char>, Seq<char>)> {
    match annotation_named(annotations, "external"@) {
        Some(a) => if a.args@.len() >= 3 {
            match (a.args@[1], a.args@[2]) {
                (Lit::String(module), Lit::String(function)) => Some((module@, function@)),
                _ => None,
            }
        } else {
            None
        },
        None => None,
    }
}

fn external_target_of(annotations: &Vec<Annotation>) -> (r: Option<(String, String)>)
    ensures
        r.deep_view() == external_target(annotations@),
{
    match find_annotation(annotations, "external") {
        Some(a) => if a.args.len() >= 3 {
            match (&a.args[1], &a.args[2]) {
                (Lit::String(module), Lit::String(function)) => Some(
                    (module.clone(), function.clone()),
                ),
                _ => None,
            }
        } else {
            None
        },
        None => None,
    }
}

pub open spec fn field_name(f: (String, TypeExpr)) -> Seq<char> {
    f.0@
}

fn field_names(v: &Vec<(String, TypeExpr)>) -> (r: Vec<String>)
    ensures
        r.deep_view() == v@.map_values(|x: (String, TypeExpr)| field_name(x)),
{
    let mut out: Vec<String> = Vec::new();
    let mut i: usize = 0;
    while i < v.len()
        invariant
            i <= v.len(),
            out.len() == i,
            forall|j: int| 0 <= j < i ==> #[trigger] out.deep_view()[j] == field_name(v@[j]),
        decreases v.len() - i,
    {
        push_value(&mut out, v[i].0.clone());
        i = i + 1;
    }
    assert(out.deep_view() =~= v@.map_values(|x: (String, TypeExpr)| field_name(x)));
    out
}

/// The trait of an impl.
pub open spec fn impl_trait(module: Seq<char>, s: ScopeModel, name: Seq<char>) -> Seq<char> {
    match lookup(s.traits, name) {
        Some(canonical) => canonical,
        None => dotted(module, name),
    }
}

/// What is known beforehand to code generation: the module, its Erlang name, its
/// effects, its scope and the operations of the compiler.
pub struct CodegenContext<'a> {
    pub module_name: &'a str,
    pub erlang_module: &'a str,
    pub effects: &'a Table<String, EffectDefInfo>,
    pub scope_map: &'a ScopeMap,
    pub intrinsics: &'a Table<String, IntrinsicId>,
}

#[verifier::ext_equal]
pub struct ContextModel {
    pub module_name: Seq<char>,
    pub erlang_module: Seq<char>,
    pub effects: Seq<(Seq<char>, EffectModel)>,
    pub scope_map: ScopeModel,
    pub intrinsics: Seq<(Seq<char>, IntrinsicId)>,
}

impl<'a> CodegenContext<'a> {
    pub open spec fn model(&self) -> ContextModel {
        ContextModel {
            module_name: self.module_name@,
            erlang_module: self.erlang_module@,
            effects: self.effects.order(),
            scope_map: self.scope_map.deep_view(),
            intrinsics: self.intrinsics.order(),
        }
    }
}

/// The dictionary of an impl.
pub open spec fn impl_dict(
    k: ContextModel,
    trait_name: Seq<char>,
    trait_type_args: Seq<TypeExpr>,
    target_type: Seq<char>,
    target_type_expr: Option<TypeExpr>,
    type_params: Seq<TypeParam>,
    where_clause: Seq<TraitBound>,
    where_apps: Seq<TraitApp>,
    needs: Seq<EffectRef>,
) -> ImplDictModel {
    let s = k.scope_map;
    let canonical = impl_trait(k.module_name, s, trait_name);
    let args = trait_type_args.map_values(|t: TypeExpr| canonical_trait_arg(s, t));
    let target = target_key_of(canonical_in(s, target_type), target_type_expr, type_params);
    ImplDictModel {
        trait_name: canonical,
        trait_type_args: args,
        target_type: target,
        dict_name: dict_name(canonical, args, k.erlang_module, target),
        arity: (app_count(where_apps) + bound_count(where_clause)) as usize,
        param_constraints: bound_constraints(s, type_params, Seq::empty(), where_clause),
        impl_effects: ordered(
            needs.map_values(|e: EffectRef| effect_in_scope(s, e)).to_set(),
        ),
    }
}

/// Whether a signature is that of a public function with effects.
pub open spec fn is_effectful_signature(decl: Decl) -> bool {
    match decl {
        Decl::FunSignature { public, effects, .. } => public && effects@.len() > 0,
        _ => false,
    }
}

/// Information with one more declaration.
pub open spec fn with_codegen_decl(k: ContextModel, g: CodegenModel, decl: Decl) -> CodegenModel {
    match decl {
        Decl::EffectDef { name, type_params, operations, .. } => {
            let canonical = dotted(k.module_name, name@);
            let info = at_key(k.effects, canonical)->0;
            CodegenModel {
                effect_defs: g.effect_defs.push(
                    EffectDefModel {
                        name: canonical,
                        ops: operations@.map_values(|op: EffectOp| op_def(info, op)),
                        type_param_count: type_params@.len() as usize,
                    },
                ),
                ..g
            }
        },
        Decl::NewEffect { name, .. } => {
            let canonical = dotted(k.module_name, name@);
            let info = at_key(k.effects, canonical)->0;
            CodegenModel {
                effect_defs: g.effect_defs.push(
                    EffectDefModel {
                        name: canonical,
                        ops: info.ops.map_values(|op: OpModel| sig_def(op)),
                        type_param_count: 0,
                    },
                ),
                ..g
            }
        },
        Decl::RecordDef { public, name, fields, .. } => if public {
            CodegenModel {
                record_fields: g.record_fields.push(
                    (name@, fields@.map_values(|f: (String, TypeExpr)| field_name(f))),
                ),
                ..g
            }
        } else {
            g
        },
        Decl::HandlerDef { public, name, .. } => if public {
            CodegenModel {
                handler_defs: g.handler_defs.push(dotted(k.module_name, name@)),
                ..g
            }
        } else {
            g
        },
        Decl::FunSignature { name, params, effects, annotations, .. } => if is_effectful_signature(
            decl,
        ) {
            let names = sorted_texts(
                declared_effects(
                    k.module_name,
                    k.effects,
                    k.scope_map,
                    Seq::empty(),
                    effects@,
                ),
            );
            if names.len() > 0 {
                CodegenModel { fun_effects: g.fun_effects.push((name@, names)), ..g }
            } else {
                g
            }
        } else {
            let g1 = if annotation_named(annotations@, "builtin"@) is Some {
                CodegenModel {
                    intrinsic_exports: g.intrinsic_exports.push(
                        (name@, at_key(k.intrinsics, dotted(k.module_name, name@))->0),
                    ),
                    ..g
                }
            } else {
                g
            };
            match external_target(annotations@) {
                Some((module, function)) => CodegenModel {
                    external_funs: g1.external_funs.push(
                        (name@, module, function, params@.len() as usize),
                    ),
                    ..g1
                },
                None => g1,
            }
        },
        Decl::ImplDef {
            trait_name,
            trait_type_args,
            target_type,
            target_type_expr,
            type_params,
            where_clause,
            where_apps,
            needs,
            ..
        } => CodegenModel {
            trait_impl_dicts: g.trait_impl_dicts.push(
                impl_dict(
                    k,
                    trait_name@,
                    trait_type_args@,
                    target_type@,
                    target_type_expr,
                    type_params@,
                    where_clause@,
                    where_apps@,
                    needs@,
                ),
            ),
            ..g
        },
        _ => g,
    }
}

pub open spec fn with_codegen_decls(
    k: ContextModel,
    acc: CodegenModel,
    items: Seq<Decl>,
) -> CodegenModel
    decreases items.len(),
{
    if items.len() == 0 {
        acc
    } else {
        with_codegen_decl(k, with_codegen_decls(k, acc, items.drop_last()), items.last())
    }
}

/// What code generation takes over from a module's exports.
pub open spec fn codegen_exports(x: ExportsModel) -> CodegenModel {
    CodegenModel {
        exports: x.bindings,
        export_origins: x.binding_origins,
        effect_origins: x.effect_origins,
        effect_defs: Seq::empty(),
        record_fields: Seq::empty(),
        handler_defs: Seq::empty(),
        handler_origins: x.handler_origins,
        fun_effects: Seq::empty(),
        type_constructors: x.type_constructors,
        trait_impl_dicts: Seq::empty(),
        external_funs: Seq::empty(),
        intrinsic_exports: Seq::empty(),
    }
}

/// What a declaration asks of what is known beforehand: its effect is registered,
/// its builtin is an operation of the compiler, and its parts can be counted.
pub open spec fn decl_is_known(k: ContextModel, decl: Decl) -> bool {
    match decl {
        Decl::EffectDef { name, .. } => has_key(k.effects, dotted(k.module_name, name@)),
        Decl::NewEffect { name, .. } => has_key(k.effects, dotted(k.module_name, name@)),
        Decl::FunSignature { name, annotations, .. } => !is_effectful_signature(decl)
            && annotation_named(annotations@, "builtin"@) is Some ==> has_key(
            k.intrinsics,
            dotted(k.module_name, name@),
        ),
        Decl::ImplDef { where_apps, where_clause, .. } => target_fits(decl) && app_count(
            where_apps@,
        ) + bound_count(where_clause@) <= usize::MAX,
        _ => true,
    }
}

pub open spec fn decls_are_known(k: ContextModel, program: Seq<Decl>) -> bool {
    forall|i: int| #![trigger program[i]] 0 <= i < program.len() ==> decl_is_known(k, program[i])
}

fn impl_dictionary(
    k: &CodegenContext,
    trait_name: &String,
    trait_type_args: &Vec<TypeExpr>,
    target_type: &String,
    target_type_expr: &Option<TypeExpr>,
    type_params: &Vec<TypeParam>,
    where_clause: &Vec<TraitBound>,
    where_apps: &Vec<TraitApp>,
    needs: &Vec<EffectRef>,
) -> (r: TraitImplDict)
    requires
        *target_type_expr matches Some(t) ==> crate::ast::app_args_of(t) <= usize::MAX,
        app_count(where_apps@) + bound_count(where_clause@) <= usize::MAX,
    ensures
        r.deep_view() == impl_dict(
            k.model(),
            trait_name@,
            trait_type_args@,
            target_type@,
            *target_type_expr,
            type_params@,
            where_clause@,
            where_apps@,
            needs@,
        ),
{
    let scope = k.scope_map;
    let canonical = match scope.resolve_trait(trait_name.as_str()) {
        Some(canonical) => canonical.clone(),
        None => dot_join(k.module_name, trait_name.as_str()),
    };
    let args = canonical_trait_args(scope, trait_type_args);
    let target_name = canonical_type_in(scope, target_type.as_str());
    let target = impl_target_key(target_name.as_str(), target_type_expr, type_params);
    let dict = make_dict_name(canonical.as_str(), &args, k.erlang_module, target.as_str());
    let arity = dictionary_arity(where_apps, where_clause);
    let mut constraints: Vec<(String, usize)> = Vec::new();
    assert(constraints.deep_view() =~= Seq::empty());
    add_all_bound_constraints(scope, type_params, &mut constraints, where_clause);
    let effects = effects_in_scope(scope, needs);
    let listed = ordered_set(&effects);
    proof {
        ordered_is(listed.deep_view(), effects.deep_view().to_set());
    }
    TraitImplDict {
        trait_name: canonical,
        trait_type_args: args,
        target_type: target,
        dict_name: dict,
        arity,
        param_constraints: constraints,
        impl_effects: listed,
    }
}

#[verifier::rlimit(30)]
fn add_signature(k: &CodegenContext, g: &mut ModuleCodegenInfo, decl: &Decl)
    requires
        decl_is_known(k.model(), *decl),
        *decl is FunSignature,
    ensures
        final(g).deep_view() == with_codegen_decl(k.model(), old(g).deep_view(), *decl),
{
    if let Decl::FunSignature { public, name, params, effects, annotations, .. } = decl {
        if *public && effects.len() > 0 {
            let mut names: Vec<String> = Vec::new();
            assert(names.deep_view() =~= Seq::empty());
            add_declared_effects(k.module_name, k.effects, k.scope_map, &mut names, effects);
            let sorted = sort_texts(&names);
            assert(sorted.deep_view().len() == sorted.len());
            if sorted.len() > 0 {
                push_value(&mut g.fun_effects, (name.clone(), sorted));
            }
        } else {
            if find_annotation(annotations, "builtin").is_some() {
                let canonical = dot_join(k.module_name, name.as_str());
                if let Some(id) = k.intrinsics.get(&canonical) {
                    push_value(&mut g.intrinsic_exports, (name.clone(), *id));
                }
            }
            if let Some((module, function)) = external_target_of(annotations) {
                push_value(
                    &mut g.external_funs,
                    (name.clone(), module, function, params.len()),
                );
            }
        }
    }
}

#[verifier::rlimit(30)]
fn add_codegen_decl(k: &CodegenContext, g: &mut ModuleCodegenInfo, decl: &Decl)
    requires
        decl_is_known(k.model(), *decl),
    ensures
        final(g).deep_view() == with_codegen_decl(k.model(), old(g).deep_view(), *decl),
{
    match decl {
        Decl::EffectDef { name, type_params, operations, .. } => {
            let canonical = dot_join(k.module_name, name.as_str());
            if let Some(info) = k.effects.get(&canonical) {
                let def = EffectDef {
                    name: canonical,
                    ops: op_defs(info, operations),
                    type_param_count: type_params.len(),
                };
                push_value(&mut g.effect_defs, def);
            }
        },
        Decl::NewEffect { name, .. } => {
            let canonical = dot_join(k.module_name, name.as_str());
            if let Some(info) = k.effects.get(&canonical) {
                let def = EffectDef {
                    name: canonical,
                    ops: sig_defs(&info.ops),
                    type_param_count: 0,
                };
                push_value(&mut g.effect_defs, def);
            }
        },
        Decl::RecordDef { public, name, fields, .. } => {
            if *public {
                push_value(&mut g.record_fields, (name.clone(), field_names(fields)));
            }
        },
        Decl::HandlerDef { public, name, .. } => {
            if *public {
                push_value(&mut g.handler_defs, dot_join(k.module_name, name.as_str()));
            }
        },
        Decl::FunSignature { .. } => {
            add_signature(k, g, decl);
        },
        Decl::ImplDef {
            trait_name,
            trait_type_args,
            target_type,
            target_type_expr,
            type_params,
            where_clause,
            where_apps,
            needs,
            ..
        } => {
            let dict = impl_dictionary(
                k,
                trait_name,
                trait_type_args,
                target_type,
                target_type_expr,
                type_params,
                where_clause,
                where_apps,
                needs,
            );
            push_value(&mut g.trait_impl_dicts, dict);
        },
        _ => {},
    }
}

fn add_codegen_decls(k: &CodegenContext, acc: &mut ModuleCodegenInfo, items: &Vec<Decl>)
    requires
        decls_are_known(k.model(), items@),
    ensures
        final(acc).deep_view() == with_codegen_decls(k.model(), old(acc).deep_view(), items@),
{
    let ghost a0 = acc.deep_view();
    let ghost all = items@;
    let mut i: usize = 0;
    assert(all.take(0) =~= Seq::empty());
    while i < items.len()
        invariant
            i <= items.len(),
            all == items@,
            acc.deep_view() == with_codegen_decls(k.model(), a0, all.take(i as int)),
            decls_are_known(k.model(), items@),
        decreases items.len() - i,
    {
        proof {
            assert(all.take(i + 1).drop_last() =~= all.take(i as int));
            assert(all.take(i + 1).last() == all[i as int]);
        }
        assert(decl_is_known(k.model(), items@[i as int]));
        add_codegen_decl(k, acc, &items[i]);
        i = i + 1;
    }
    assert(all.take(i as int) =~= all);
}

/// What code generation needs to know of a module, the Erlang name of which is
/// given.
pub fn codegen_info(
    context: &CodegenContext,
    program: &Vec<Decl>,
    exports: &ModuleExports,
) -> (r: ModuleCodegenInfo)
    requires
        decls_are_known(context.model(), program@),
    ensures
        r.deep_view() == with_codegen_decls(
            context.model(),
            codegen_exports(exports.deep_view()),
            program@,
        ),
{
    let mut g = ModuleCodegenInfo {
        exports: exports.bindings.dup(),
        export_origins: table_entries(&exports.binding_origins),
        effect_origins: table_entries(&exports.effect_origins),
        effect_defs: Vec::new(),
        record_fields: Vec::new(),
        handler_defs: Vec::new(),
        handler_origins: table_entries(&exports.handler_origins),
        fun_effects: Vec::new(),
        type_constructors: table_entries(&exports.type_constructors),
        trait_impl_dicts: Vec::new(),
        external_funs: Vec::new(),
        intrinsic_exports: Vec::new(),
    };
    proof {
        assert(g.effect_defs.deep_view() =~= Seq::empty());
        assert(g.record_fields.deep_view() =~= Seq::empty());
        assert(g.handler_defs.deep_view() =~= Seq::empty());
        assert(g.fun_effects.deep_view() =~= Seq::empty());
        assert(g.trait_impl_dicts.deep_view() =~= Seq::empty());
        assert(g.external_funs.deep_view() =~= Seq::empty());
        assert(g.intrinsic_exports.deep_view() =~= Seq::empty());
    }
    add_codegen_decls(context, &mut g, program);
    g
}

/// What code generation needs to know of a module.
pub fn collect_codegen_info(
    module_name: &str,
    program: &Vec<Decl>,
    exports: &ModuleExports,
    effects: &Table<String, EffectDefInfo>,
    scope_map: &ScopeMap,
    intrinsics: &Table<String, IntrinsicId>,
) -> (r: ModuleCodegenInfo)
    requires
        forall|erlang_module: Seq<char>|
            #[trigger] decls_are_known(
                ContextModel {
                    module_name: module_name@,
                    erlang_module,
                    effects: effects.order(),
                    scope_map: scope_map.deep_view(),
                    intrinsics: intrinsics.order(),
                },
                program@,
            ),
    ensures
        r.deep_view() == with_codegen_decls(
            ContextModel {
                module_name: module_name@,
                erlang_module: erlang_module_of(module_name@),
                effects: effects.order(),
                scope_map: scope_map.deep_view(),
                intrinsics: intrinsics.order(),
            },
            codegen_exports(exports.deep_view()),
            program@,
        ),
{
    let erlang_module = erlang_module_name(module_name);
    let context = CodegenContext {
        module_name,
        erlang_module: erlang_module.as_str(),
        effects,
        scope_map,
        intrinsics,
    };
    assert(decls_are_known(context.model(), program@));
    codegen_info(&context, program, exports)
}

/// Whether an annotation is the first of its name.
pub open spec fn is_first_annotation(annotations: Seq<Annotation>, j: int) -> bool {
    &&& 0 <= j < annotations.len()
    &&& forall|k: int| 0 <= k < j ==> (#[trigger] annotations[k]).name@ != annotations[j].name@
}

proof fn named_annotations_are_first(annotations: Seq<Annotation>, name: Seq<char>)
    ensures
        match annotation_named(annotations, name) {
            Some(a) => exists|j: int| #[trigger]
                is_first_annotation(annotations, j) && annotations[j] == a && a.name@ == name,
            None => forall|j: int|
                0 <= j < annotations.len() ==> (#[trigger] annotations[j]).name@ != name,
        },
    decreases annotations.len(),
{
    if annotations.len() > 0 {
        let init = annotations.drop_last();
        named_annotations_are_first(init, name);
        assert(forall|k: int| 0 <= k < init.len() ==> #[trigger] annotations[k] == init[k]);
        let last = annotations.len() - 1;
        assert(annotations[last] == annotations.last());
        if let Some(a) = annotation_named(init, name) {
            let j = choose|j: int| #[trigger]
                is_first_annotation(init, j) && init[j] == a && a.name@ == name;
            assert(is_first_annotation(annotations, j));
        } else if annotations.last().name@ == name {
            assert(is_first_annotation(annotations, last));
        }
    }
}

/// Whether a signature is bound to an Erlang function: its first annotation `external`
/// has a text for the Erlang module as its second argument and one for the function as
/// its third. A public function with effects is not.
pub open spec fn is_external(decl: Decl, module: Seq<char>, function: Seq<char>) -> bool {
    match decl {
        Decl::FunSignature { public, effects, annotations, .. } => {
            &&& !(public && effects@.len() > 0)
            &&& exists|j: int|
                {
                    let args = annotations@[j].args@;
                    &&& #[trigger] is_first_annotation(annotations@, j)
                    &&& annotations@[j].name@ == "external"@
                    &&& args.len() >= 3
                    &&& args[1] matches Lit::String(m) && m@ == module
                    &&& args[2] matches Lit::String(f) && f@ == function
                }
        },
        _ => false,
    }
}

/// Whether an entry is that of a declaration among the external functions: the name of
/// the function, its Erlang module, its Erlang function and its number of parameters.
pub open spec fn is_external_entry(
    decl: Decl,
    e: (Seq<char>, Seq<char>, Seq<char>, usize),
) -> bool {
    &&& is_external(decl, e.1, e.2)
    &&& decl matches Decl::FunSignature { name, params, .. } && e.0 == name@ && e.3
        == params@.len() as usize
}

proof fn first_annotations_are_one(annotations: Seq<Annotation>, i: int, j: int)
    requires
        is_first_annotation(annotations, i),
        is_first_annotation(annotations, j),
        annotations[i].name@ == annotations[j].name@,
    ensures
        i == j,
{
}

proof fn targets_are_external(
    decl: Decl,
    g: CodegenModel,
    k: ContextModel,
    e: (Seq<char>, Seq<char>, Seq<char>, usize),
)
    ensures
        with_codegen_decl(k, g, decl).external_funs.contains(e) <==> g.external_funs.contains(e)
            || is_external_entry(decl, e),
{
    if let Decl::FunSignature { name, params, annotations, .. } = decl {
        named_annotations_are_first(annotations@, "external"@);
        match annotation_named(annotations@, "external"@) {
            Some(a) => {
                let j = choose|j: int| #[trigger]
                    is_first_annotation(annotations@, j) && annotations@[j] == a && a.name@
                        == "external"@;
                assert forall|i: int|
                    #[trigger] is_first_annotation(annotations@, i) && annotations@[i].name@
                        == "external"@ implies i == j by {
                    first_annotations_are_one(annotations@, i, j);
                }
            },
            None => {},
        }
        if !is_effectful_signature(decl) {
            if let Some((module, function)) = external_target(annotations@) {
                let next = (name@, module, function, params@.len() as usize);
                push_contains(g.external_funs, next, e);
                assert(is_external_entry(decl, e) <==> e == next);
            }
        }
    }
}

/// Just the signatures that are bound to Erlang functions are told as external, with
/// their names, Erlang modules, Erlang functions and numbers of parameters.
pub proof fn external_functions_are_told(
    k: ContextModel,
    x: ExportsModel,
    program: Seq<Decl>,
    e: (Seq<char>, Seq<char>, Seq<char>, usize),
)
    ensures
        with_codegen_decls(k, codegen_exports(x), program).external_funs.contains(e)
            <==> exists|i: int| 0 <= i < program.len() && is_external_entry(#[trigger] program[i], e),
    decreases program.len(),
{
    if program.len() > 0 {
        let init = program.drop_last();
        external_functions_are_told(k, x, init, e);
        let before = with_codegen_decls(k, codegen_exports(x), init);
        targets_are_external(program.last(), before, k, e);
        assert(forall|i: int| 0 <= i < init.len() ==> #[trigger] program[i] == init[i]);
        assert(forall|i: int| 0 <= i < init.len() ==> program[i] == #[trigger] init[i]);
        assert(program[program.len() - 1] == program.last());
    }
}

/// Whether information has all that there was, at its place.
spec fn info_grows(g: CodegenModel, after: CodegenModel) -> bool {
    &&& g.effect_defs.is_prefix_of(after.effect_defs)
    &&& g.record_fields.is_prefix_of(after.record_fields)
    &&& g.handler_defs.is_prefix_of(after.handler_defs)
    &&& g.fun_effects.is_prefix_of(after.fun_effects)
    &&& g.trait_impl_dicts.is_prefix_of(after.trait_impl_dicts)
    &&& g.intrinsic_exports.is_prefix_of(after.intrinsic_exports)
}

/// Whether a trait, an argument or an effect is named in a scope as written.
pub open spec fn is_named_in(
    entries: Map<Seq<char>, Seq<char>>,
    written: Seq<char>,
    otherwise: Seq<char>,
    name: Seq<char>,
) -> bool {
    name == (match lookup(entries, written) {
        Some(canonical) => canonical,
        None => otherwise,
    })
}

/// Whether an operation is told as it is declared: its number of parameters, where those
/// stand that are there at run time, and one dictionary for each trait of its bounds.
pub open spec fn is_op_told(op: EffectOp, d: OpDefModel) -> bool {
    &&& d.name == op.name@
    &&& d.source_param_count == op.params@.len() as usize
    &&& d.runtime_param_count == d.runtime_param_positions.len() as usize
    &&& forall|p: usize| #[trigger]
        d.runtime_param_positions.contains(p) <==> p < op.params@.len() && !is_unit_expr(
            op.params@[p as int].1,
        )
}

/// Whether information tells of a declaration what code generation needs.
pub open spec fn is_told(k: ContextModel, g: CodegenModel, decl: Decl) -> bool {
    match decl {
        Decl::EffectDef { name, type_params, operations, .. } => exists|x: int|
            {
                let d = #[trigger] g.effect_defs[x];
                &&& 0 <= x < g.effect_defs.len()
                &&& d.name == dotted(k.module_name, name@)
                &&& d.type_param_count == type_params@.len() as usize
                &&& d.ops.len() == operations@.len()
                &&& forall|i: int|
                    0 <= i < d.ops.len() ==> is_op_told(operations@[i], #[trigger] d.ops[i])
            },
        Decl::NewEffect { name, .. } => exists|x: int|
            {
                let d = #[trigger] g.effect_defs[x];
                &&& 0 <= x < g.effect_defs.len()
                &&& d.name == dotted(k.module_name, name@)
                &&& d.type_param_count == 0
            },
        Decl::RecordDef { public, name, fields, .. } => public ==> exists|x: int|
            {
                let r = #[trigger] g.record_fields[x];
                &&& 0 <= x < g.record_fields.len()
                &&& r.0 == name@
                &&& r.1.len() == fields@.len()
                &&& forall|i: int| 0 <= i < r.1.len() ==> #[trigger] r.1[i] == fields@[i].0@
            },
        Decl::HandlerDef { public, name, .. } => public ==> g.handler_defs.contains(
            dotted(k.module_name, name@),
        ),
        Decl::FunSignature { public, name, effects, annotations, .. } => {
            &&& public ==> forall|i: int|
                0 <= i < effects@.len() && !is_beam_native((#[trigger] effects@[i]).name@)
                    ==> has_fun_effect(
                    g,
                    name@,
                    declared_effect(k.module_name, k.effects, k.scope_map, effects@[i].name@),
                )
            &&& !(public && effects@.len() > 0) && (exists|j: int|
                0 <= j < annotations@.len() && (#[trigger] annotations@[j]).name@ == "builtin"@)
                ==> g.intrinsic_exports.contains(
                (name@, at_key(k.intrinsics, dotted(k.module_name, name@))->0),
            )
        },
        Decl::ImplDef {
            trait_name,
            trait_type_args,
            target_type,
            target_type_expr,
            type_params,
            needs,
            ..
        } => exists|x: int|
            {
                let d = #[trigger] g.trait_impl_dicts[x];
                &&& 0 <= x < g.trait_impl_dicts.len()
                &&& is_named_in(
                    k.scope_map.traits,
                    trait_name@,
                    dotted(k.module_name, trait_name@),
                    d.trait_name,
                )
                &&& d.trait_type_args.len() == trait_type_args@.len()
                &&& forall|i: int|
                    0 <= i < d.trait_type_args.len() ==> #[trigger] d.trait_type_args[i]
                        == canonical_trait_arg(k.scope_map, trait_type_args@[i])
                &&& d.target_type == target_key_of(
                    canonical_in(k.scope_map, target_type@),
                    target_type_expr,
                    type_params@,
                )
                &&& d.dict_name == dict_name(
                    d.trait_name,
                    d.trait_type_args,
                    k.erlang_module,
                    d.target_type,
                )
                &&& forall|n: Seq<char>| #[trigger]
                    d.impl_effects.contains(n) <==> exists|i: int|
                        0 <= i < needs@.len() && is_named_in(
                            k.scope_map.effects,
                            (#[trigger] needs@[i]).name@,
                            needs@[i].name@,
                            n,
                        )
            },
        _ => true,
    }
}

/// Whether a function is told to have an effect.
pub open spec fn has_fun_effect(g: CodegenModel, name: Seq<char>, effect: Seq<char>) -> bool {
    exists|x: int|
        0 <= x < g.fun_effects.len() && (#[trigger] g.fun_effects[x]).0 == name
            && g.fun_effects[x].1.contains(effect)
}

proof fn written_positions_are_not_unit(params: Seq<(String, TypeExpr)>)
    requires
        params.len() <= usize::MAX,
    ensures
        forall|p: usize| #[trigger]
            written_positions(params).contains(p) <==> p < params.len() && !is_unit_expr(
                params[p as int].1,
            ),
    decreases params.len(),
{
    if params.len() > 0 {
        let init = params.drop_last();
        written_positions_are_not_unit(init);
        let at = (params.len() - 1) as usize;
        assert forall|p: usize| #[trigger]
            written_positions(params).contains(p) <==> p < params.len() && !is_unit_expr(
                params[p as int].1,
            ) by {
            push_contains(written_positions(init), at, p);
            assert(written_positions(init).contains(p) <==> p < init.len() && !is_unit_expr(
                init[p as int].1,
            ));
        }
    }
}

proof fn declared_effects_are_kept(k: ContextModel, items: Seq<EffectRef>, i: int)
    requires
        0 <= i < items.len(),
        !is_beam_native(items[i].name@),
    ensures
        declared_effects(
            k.module_name,
            k.effects,
            k.scope_map,
            Seq::empty(),
            items,
        ).contains(declared_effect(k.module_name, k.effects, k.scope_map, items[i].name@)),
    decreases items.len(),
{
    let init = items.drop_last();
    let before = declared_effects(
        k.module_name,
        k.effects,
        k.scope_map,
        Seq::empty(),
        init,
    );
    let wanted = declared_effect(k.module_name, k.effects, k.scope_map, items[i].name@);
    push_contains(
        before,
        declared_effect(k.module_name, k.effects, k.scope_map, items.last().name@),
        wanted,
    );
    if i < init.len() {
        declared_effects_are_kept(k, init, i);
    }
}

proof fn decl_is_told(k: ContextModel, g: CodegenModel, decl: Decl)
    ensures
        is_told(k, with_codegen_decl(k, g, decl), decl),
        info_grows(g, with_codegen_decl(k, g, decl)),
{
    let after = with_codegen_decl(k, g, decl);
    match decl {
        Decl::EffectDef { name, type_params, operations, .. } => {
            let n = g.effect_defs.len() as int;
            let d = after.effect_defs[n];
            assert forall|i: int| 0 <= i < d.ops.len() implies is_op_told(
                operations@[i],
                #[trigger] d.ops[i],
            ) by {
                assert(operations@[i].params.len() == operations@[i].params@.len());
                written_positions_are_not_unit(operations@[i].params@);
            }
        },
        Decl::NewEffect { .. } => {
            let d = after.effect_defs[g.effect_defs.len() as int];
            assert(d.type_param_count == 0);
        },
        Decl::RecordDef { public, .. } => {
            if public {
                let r = after.record_fields[g.record_fields.len() as int];
                assert(after.record_fields[g.record_fields.len() as int].0 == r.0);
            }
        },
        Decl::HandlerDef { public, name, .. } => {
            if public {
                assert(after.handler_defs[g.handler_defs.len() as int] == dotted(
                    k.module_name,
                    name@,
                ));
            }
        },
        Decl::FunSignature { public, name, effects, annotations, .. } => {
            if public && effects@.len() > 0 {
                let names = declared_effects(
                    k.module_name,
                    k.effects,
                    k.scope_map,
                    Seq::empty(),
                    effects@,
                );
                assert forall|i: int|
                    0 <= i < effects@.len() && !is_beam_native((#[trigger] effects@[i]).name@) implies has_fun_effect(
                    after,
                    name@,
                    declared_effect(k.module_name, k.effects, k.scope_map, effects@[i].name@),
                ) by {
                    declared_effects_are_kept(k, effects@, i);
                    let wanted = declared_effect(
                        k.module_name,
                        k.effects,
                        k.scope_map,
                        effects@[i].name@,
                    );
                    sorting_keeps_names(names, wanted);
                    assert(sorted_texts(names).len() > 0);
                    let x = g.fun_effects.len() as int;
                    assert(after.fun_effects[x] == (name@, sorted_texts(names)));
                }
            } else {
                named_annotations_are_first(annotations@, "builtin"@);
                if annotation_named(annotations@, "builtin"@) is Some {
                    let x = g.intrinsic_exports.len() as int;
                    assert(after.intrinsic_exports[x] == (
                        name@,
                        at_key(k.intrinsics, dotted(k.module_name, name@))->0,
                    ));
                }
            }
        },
        Decl::ImplDef { trait_name, trait_type_args, needs, .. } => {
            let d = after.trait_impl_dicts[g.trait_impl_dicts.len() as int];
            let names = needs@.map_values(|e: EffectRef| effect_in_scope(k.scope_map, e));
            listings_have_each_name_once(names);
            assert forall|n: Seq<char>| #[trigger]
                d.impl_effects.contains(n) <==> exists|i: int|
                    0 <= i < needs@.len() && is_named_in(
                        k.scope_map.effects,
                        (#[trigger] needs@[i]).name@,
                        needs@[i].name@,
                        n,
                    ) by {
                assert(names.to_set().contains(n) <==> names.contains(n));
                if names.contains(n) {
                    let i = choose|i: int| 0 <= i < names.len() && names[i] == n;
                    assert(names[i] == effect_in_scope(k.scope_map, needs@[i]));
                }
                if exists|i: int|
                    0 <= i < needs@.len() && is_named_in(
                        k.scope_map.effects,
                        (#[trigger] needs@[i]).name@,
                        needs@[i].name@,
                        n,
                    ) {
                    let i = choose|i: int|
                        0 <= i < needs@.len() && is_named_in(
                            k.scope_map.effects,
                            (#[trigger] needs@[i]).name@,
                            needs@[i].name@,
                            n,
                        );
                    assert(names[i] == n);
                }
            }
        },
        _ => {},
    }
}

proof fn told_stays(k: ContextModel, g: CodegenModel, after: CodegenModel, decl: Decl)
    requires
        is_told(k, g, decl),
        info_grows(g, after),
    ensures
        is_told(k, after, decl),
{
    assert(forall|x: int|
        0 <= x < g.effect_defs.len() ==> #[trigger] g.effect_defs[x] == after.effect_defs[x]);
    assert(forall|x: int|
        0 <= x < g.record_fields.len() ==> #[trigger] g.record_fields[x] == after.record_fields[x]);
    assert(forall|x: int|
        0 <= x < g.handler_defs.len() ==> #[trigger] g.handler_defs[x] == after.handler_defs[x]);
    assert(forall|x: int|
        0 <= x < g.fun_effects.len() ==> #[trigger] g.fun_effects[x] == after.fun_effects[x]);
    assert(forall|x: int|
        0 <= x < g.trait_impl_dicts.len() ==> #[trigger] g.trait_impl_dicts[x]
            == after.trait_impl_dicts[x]);
    assert(forall|x: int|
        0 <= x < g.intrinsic_exports.len() ==> #[trigger] g.intrinsic_exports[x]
            == after.intrinsic_exports[x]);
    if let Decl::FunSignature { public, name, effects, .. } = decl {
        if public {
            assert forall|i: int|
                0 <= i < effects@.len() && !is_beam_native((#[trigger] effects@[i]).name@) implies has_fun_effect(
                after,
                name@,
                declared_effect(k.module_name, k.effects, k.scope_map, effects@[i].name@),
            ) by {
                let wanted = declared_effect(
                    k.module_name,
                    k.effects,
                    k.scope_map,
                    effects@[i].name@,
                );
                assert(has_fun_effect(g, name@, wanted));
                let x = choose|x: int|
                    0 <= x < g.fun_effects.len() && (#[trigger] g.fun_effects[x]).0 == name@
                        && g.fun_effects[x].1.contains(wanted);
                assert(after.fun_effects[x] == g.fun_effects[x]);
            }
        }
    }
}

/// Code generation is told of each declaration of a program, and of the exports of the
/// module as they are.
pub proof fn declarations_are_told(
    k: ContextModel,
    x: ExportsModel,
    program: Seq<Decl>,
)
    ensures
        ({
            let g = with_codegen_decls(k, codegen_exports(x), program);
            &&& forall|i: int| 0 <= i < program.len() ==> is_told(k, g, #[trigger] program[i])
            &&& g.exports == x.bindings
            &&& g.export_origins == x.binding_origins
            &&& g.effect_origins == x.effect_origins
            &&& g.handler_origins == x.handler_origins
            &&& g.type_constructors == x.type_constructors
        }),
    decreases program.len(),
{
    if program.len() > 0 {
        let init = program.drop_last();
        declarations_are_told(k, x, init);
        let before = with_codegen_decls(k, codegen_exports(x), init);
        let g = with_codegen_decls(k, codegen_exports(x), program);
        decl_is_told(k, before, program.last());
        assert forall|i: int| 0 <= i < program.len() implies is_told(k, g, #[trigger] program[i]) by {
            if i < init.len() {
                assert(program[i] == init[i]);
                told_stays(k, before, g, init[i]);
            }
        }
    }
}

/// Of a program that declares nothing of a kind, nothing of that kind is told.
pub proof fn nothing_else_is_told(k: ContextModel, x: ExportsModel, program: Seq<Decl>)
    ensures
        ({
            let g = with_codegen_decls(k, codegen_exports(x), program);
            &&& g.effect_defs.len() <= count_of(program, |d: Decl| d is EffectDef || d is NewEffect)
            &&& g.record_fields.len() <= count_of(program, |d: Decl| d is RecordDef)
            &&& g.handler_defs.len() <= count_of(program, |d: Decl| d is HandlerDef)
            &&& g.trait_impl_dicts.len() <= count_of(program, |d: Decl| d is ImplDef)
            &&& g.fun_effects.len() + g.external_funs.len() <= count_of(
                program,
                |d: Decl| d is FunSignature,
            )
        }),
    decreases program.len(),
{
    if program.len() > 0 {
        nothing_else_is_told(k, x, program.drop_last());
    }
}

/// How many declarations of a program are of a kind.
pub open spec fn count_of(program: Seq<Decl>, kind: spec_fn(Decl) -> bool) -> nat
    decreases program.len(),
{
    if program.len() == 0 {
        0
    } else {
        count_of(program.drop_last(), kind) + if kind(program.last()) {
            1nat
        } else {
            0nat
        }
    }
}

/// A dictionary parameter comes for each constraint and each bound that has one: for
/// each but those on arithmetic and equality, and of the constraints for those on a
/// variable.
pub proof fn dictionaries_are_counted(
    apps: Seq<TraitApp>,
    app: TraitApp,
    bounds: Seq<TraitBound>,
    b: TraitBound,
    traits: Seq<TraitRef>,
    t: TraitRef,
)
    ensures
        app_count(Seq::empty()) == 0,
        trait_count(Seq::empty()) == 0,
        bound_count(Seq::empty()) == 0,
        app_count(apps.push(app)) == app_count(apps) + if app.trait_name@ != "Num"@
            && app.trait_name@ != "Eq"@ && app.type_args@.len() > 0 && app.type_args@[0] is Var {
            1nat
        } else {
            0nat
        },
        trait_count(traits.push(t)) == trait_count(traits) + if t.name@ != "Num"@ && t.name@
            != "Eq"@ {
            1nat
        } else {
            0nat
        },
        bound_count(bounds.push(b)) == bound_count(bounds) + trait_count(b.traits@),
{
    assert(apps.push(app).drop_last() =~= apps);
    assert(traits.push(t).drop_last() =~= traits);
    assert(bounds.push(b).drop_last() =~= bounds);
}

/// The effects of a callback are told by its position, and a parameter has an open row
/// just where one of its arrows has.
pub proof fn callbacks_are_told_by_position(params: Seq<(Seq<char>, Ty)>, p: usize)
    requires
        params.len() <= usize::MAX,
    ensures
        distinct_keys(absorbed(params)),
        match at_key(absorbed(params), p) {
            Some(names) => {
                &&& p < params.len()
                &&& forall|n: Seq<char>| #[trigger]
                    names.contains(n) <==> arrow_effects(params[p as int].1).contains(n)
            },
            None => p < params.len() ==> arrow_effects(params[p as int].1).len() == 0,
        },
        open_rows(params).contains(p) <==> p < params.len() && open_along(params[p as int].1),
    decreases params.len(),
{
    if params.len() > 0 {
        let init = params.drop_last();
        callbacks_are_told_by_position(init, p);
        let at = (params.len() - 1) as usize;
        let own = arrow_effects(params.last().1);
        let names = ordered(own.to_set());
        listings_have_each_name_once(own);
        assert forall|n: Seq<char>| #[trigger] names.contains(n) <==> own.contains(n) by {}
        if own.len() > 0 {
            assert(own.contains(own[0]));
            assert(names.contains(own[0]));
        }
        if names.len() > 0 {
            assert(names.contains(names[0]));
            put_then_get(absorbed(init), at, names, p);
        } else if own.len() > 0 {
            assert(false);
        }
        push_contains(open_rows(init), at, p);
    }
}

/// The effects along a function type are those of its arrows.
pub proof fn arrows_have_their_effects(t: Ty, name: Seq<char>)
    ensures
        arrow_effects(t).contains(name) <==> (t matches Ty::Fun(_, ret, row) && ((exists|i: int|
            0 <= i < row.effects.len() && (#[trigger] row.effects[i]).name == name)
            || arrow_effects(*ret).contains(name))),
        open_along(t) <==> (t matches Ty::Fun(_, ret, row) && (row.tails.len() > 0 || open_along(
            *ret,
        ))),
        arrow_count(t) == (match t {
            Ty::Fun(_, ret, _) => 1 + arrow_count(*ret),
            _ => 0,
        }),
{
    if let Ty::Fun(_, ret, row) = t {
        let own = row.effects.map_values(|e: Entry| e.name);
        let rest = arrow_effects(*ret);
        assert(forall|i: int| 0 <= i < own.len() ==> #[trigger] own[i] == row.effects[i].name);
        if arrow_effects(t).contains(name) {
            let i = choose|i: int| 0 <= i < (own + rest).len() && (own + rest)[i] == name;
            if i < own.len() {
                assert(row.effects[i].name == name);
            } else {
                assert(rest[i - own.len()] == name);
            }
        }
        if exists|i: int| 0 <= i < row.effects.len() && (#[trigger] row.effects[i]).name == name {
            let i = choose|i: int|
                0 <= i < row.effects.len() && (#[trigger] row.effects[i]).name == name;
            assert((own + rest)[i] == name);
        }
        if rest.contains(name) {
            let i = choose|i: int| 0 <= i < rest.len() && rest[i] == name;
            assert((own + rest)[own.len() + i] == name);
        }
    }
}

proof fn dict_params_are_listed(acc: Seq<Seq<char>>, items: Seq<TraitBound>, i: int, j: int)
    requires
        0 <= i < items.len(),
        0 <= j < items[i].traits@.len(),
    ensures
        dict_params(acc, items).contains(dict_param(items[i].type_var@, items[i].traits@[j])),
    decreases items.len(),
{
    let init = items.drop_last();
    let before = dict_params(acc, init);
    let b = items.last();
    let more = b.traits@.map_values(|t: TraitRef| dict_param(b.type_var@, t));
    let after = dict_params(acc, items);
    let wanted = dict_param(items[i].type_var@, items[i].traits@[j]);
    if i < init.len() {
        dict_params_are_listed(acc, init, i, j);
        let x = choose|x: int| 0 <= x < before.len() && before[x] == wanted;
        assert(after[x] == wanted);
    } else {
        assert(more[j] == wanted);
        assert(after[before.len() + j] == wanted);
    }
}

/// An operation has a dictionary parameter for each trait of each of its bounds, named
/// after the trait and the variable.
pub proof fn bounds_have_dictionary_parameters(
    info: EffectModel,
    op: EffectOp,
    i: int,
    j: int,
)
    requires
        0 <= i < op.where_clause@.len(),
        0 <= j < op.where_clause@[i].traits@.len(),
    ensures
        op_def(info, op).dict_param_names.contains(
            "__dict_"@ + op.where_clause@[i].traits@[j].name@ + "_"@
                + op.where_clause@[i].type_var@,
        ),
{
    dict_params_are_listed(Seq::empty(), op.where_clause@, i, j);
}

proof fn position_is_last(params: Seq<TypeParam>, i: int)
    requires
        params.len() <= usize::MAX,
        0 <= i < params.len(),
        forall|k: int| i < k < params.len() ==> (#[trigger] params[k]).name@ != params[i].name@,
    ensures
        param_position(params, params[i].name@) == i,
    decreases params.len(),
{
    if i < params.len() - 1 {
        let init = params.drop_last();
        assert(params[params.len() - 1].name@ != params[i].name@);
        assert forall|k: int| i < k < init.len() implies (#[trigger] init[k]).name@
            != init[i].name@ by {
            assert(params[k].name@ != params[i].name@);
        }
        position_is_last(init, i);
    }
}

proof fn bound_positions_are_listed(
    s: ScopeModel,
    params: Seq<TypeParam>,
    items: Seq<TraitBound>,
    i: int,
    j: int,
)
    requires
        0 <= i < items.len(),
        0 <= j < items[i].traits@.len(),
    ensures
        bound_constraints(s, params, Seq::empty(), items).contains(
            (
                trait_in_scope(s, items[i].traits@[j].name@),
                param_position(params, items[i].type_var@),
            ),
        ),
    decreases items.len(),
{
    let init = items.drop_last();
    let before = bound_constraints(s, params, Seq::empty(), init);
    let b = items.last();
    let position = param_position(params, b.type_var@);
    let more = b.traits@.map_values(|t: TraitRef| (trait_in_scope(s, t.name@), position));
    let after = bound_constraints(s, params, Seq::empty(), items);
    let wanted = (
        trait_in_scope(s, items[i].traits@[j].name@),
        param_position(params, items[i].type_var@),
    );
    if i < init.len() {
        bound_positions_are_listed(s, params, init, i, j);
        let x = choose|x: int| 0 <= x < before.len() && before[x] == wanted;
        assert(after[x] == wanted);
    } else {
        assert(more[j] == wanted);
        assert(after[before.len() + j] == wanted);
    }
}

/// The dictionary of an impl tells of each bound on a type parameter which trait is
/// needed at which position.
pub proof fn dictionaries_tell_their_constraints(
    k: ContextModel,
    trait_name: Seq<char>,
    trait_type_args: Seq<TypeExpr>,
    target_type: Seq<char>,
    target_type_expr: Option<TypeExpr>,
    type_params: Seq<TypeParam>,
    where_clause: Seq<TraitBound>,
    where_apps: Seq<TraitApp>,
    needs: Seq<EffectRef>,
    i: int,
    j: int,
    p: usize,
)
    requires
        type_params.len() <= usize::MAX,
        0 <= i < where_clause.len(),
        0 <= j < where_clause[i].traits@.len(),
        0 <= p < type_params.len(),
        type_params[p as int].name@ == where_clause[i].type_var@,
        forall|n: int|
            p < n < type_params.len() ==> (#[trigger] type_params[n]).name@
                != type_params[p as int].name@,
    ensures
        impl_dict(
            k,
            trait_name,
            trait_type_args,
            target_type,
            target_type_expr,
            type_params,
            where_clause,
            where_apps,
            needs,
        ).param_constraints.contains(
            (
                match lookup(k.scope_map.traits, where_clause[i].traits@[j].name@) {
                    Some(canonical) => canonical,
                    None => where_clause[i].traits@[j].name@,
                },
                p,
            ),
        ),
{
    position_is_last(type_params, p as int);
    bound_positions_are_listed(k.scope_map, type_params, where_clause, i, j);
}

} // verus!
