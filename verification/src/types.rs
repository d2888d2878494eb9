//! Types and effect rows, and what they stand for.

use vstd::prelude::*;

verus! {

/// A single entry in an effect row.
#[derive(Debug)]
pub struct EffectEntry {
    /// Canonical effect name: `State`, `Std.Log.Log`, etc.
    pub name: String,
    /// Type arguments: `[Int]` in `State Int`.
    pub args: Vec<Type>,
}

/// An effect row: a list of known effects and the row variables (tails) that
/// each stand for further effects. Without tails the row is closed.
#[derive(Debug)]
pub struct EffectRow {
    pub effects: Vec<EffectEntry>,
    pub tails: Vec<Type>,
}

/// A type as inference sees it. All named types, primitives too, are `Con`.
#[derive(Debug)]
pub enum Type {
    /// Unification variable, solved during inference.
    Var(u32),
    /// Function type with the effect row of its call.
    Fun(Box<Type>, Box<Type>, EffectRow),
    /// Named type constructor with arguments.
    Con(String, Vec<Type>),
    /// Anonymous record type, its fields sorted by name.
    Record(Vec<(String, Type)>),
    /// Type-level symbol literal.
    Symbol(String),
    /// Error recovery type: suppresses errors that would only follow from others.
    Error,
}

/// What an effect entry stands for.
#[verifier::ext_equal]
pub struct Entry {
    pub name: Seq<char>,
    pub args: Seq<Ty>,
}

/// What an effect row stands for.
#[verifier::ext_equal]
pub struct Row {
    pub effects: Seq<Entry>,
    pub tails: Seq<Ty>,
}

/// What a type stands for.
#[verifier::ext_equal]
pub enum Ty {
    Var(u32),
    Fun(Box<Ty>, Box<Ty>, Row),
    Con(Seq<char>, Seq<Ty>),
    Record(Seq<(Seq<char>, Ty)>),
    Symbol(Seq<char>),
    Error,
}

pub open spec fn type_model(t: Type) -> Ty
    decreases t,
{
    match t {
        Type::Var(id) => Ty::Var(id),
        Type::Fun(a, b, row) => Ty::Fun(
            Box::new(type_model(*a)),
            Box::new(type_model(*b)),
            row_model(row),
        ),
        Type::Con(name, args) => Ty::Con(name@, types_model(args)),
        Type::Record(fields) => Ty::Record(fields_model(fields)),
        Type::Symbol(name) => Ty::Symbol(name@),
        Type::Error => Ty::Error,
    }
}

pub open spec fn types_model(v: Vec<Type>) -> Seq<Ty>
    decreases v,
{
    Seq::new(
        v@.len(),
        |i: int|
            if 0 <= i < v@.len() {
                type_model(v@[i])
            } else {
                Ty::Error
            },
    )
}

pub open spec fn fields_model(v: Vec<(String, Type)>) -> Seq<(Seq<char>, Ty)>
    decreases v,
{
    Seq::new(
        v@.len(),
        |i: int|
            if 0 <= i < v@.len() {
                (v@[i].0@, type_model(v@[i].1))
            } else {
                (Seq::<char>::empty(), Ty::Error)
            },
    )
}

pub open spec fn entry_model(e: EffectEntry) -> Entry
    decreases e,
{
    Entry { name: e.name@, args: types_model(e.args) }
}

pub open spec fn row_model(r: EffectRow) -> Row
    decreases r,
{
    Row {
        effects: Seq::new(
            r.effects@.len(),
            |i: int|
                if 0 <= i < r.effects@.len() {
                    entry_model(r.effects@[i])
                } else {
                    Entry { name: Seq::empty(), args: Seq::empty() }
                },
        ),
        tails: types_model(r.tails),
    }
}

impl View for Type {
    type V = Ty;

    open spec fn view(&self) -> Ty {
        type_model(*self)
    }
}

impl DeepView for Type {
    type V = Ty;

    open spec fn deep_view(&self) -> Ty {
        type_model(*self)
    }
}

impl View for EffectEntry {
    type V = Entry;

    open spec fn view(&self) -> Entry {
        entry_model(*self)
    }
}

impl DeepView for EffectEntry {
    type V = Entry;

    open spec fn deep_view(&self) -> Entry {
        entry_model(*self)
    }
}

impl View for EffectRow {
    type V = Row;

    open spec fn view(&self) -> Row {
        row_model(*self)
    }
}

impl DeepView for EffectRow {
    type V = Row;

    open spec fn deep_view(&self) -> Row {
        row_model(*self)
    }
}

/// What a type stands for is made of what its parts stand for.
pub broadcast proof fn fun_model(a: Box<Type>, b: Box<Type>, row: EffectRow)
    ensures
        #[trigger] type_model(Type::Fun(a, b, row)) == Ty::Fun(
            Box::new(type_model(*a)),
            Box::new(type_model(*b)),
            row_model(row),
        ),
{
}

pub broadcast proof fn con_model(name: String, args: Vec<Type>)
    ensures
        #[trigger] type_model(Type::Con(name, args)) == Ty::Con(name@, args.deep_view()),
{
    assert(types_model(args) =~= args.deep_view());
}

pub broadcast proof fn record_model(fields: Vec<(String, Type)>)
    ensures
        #[trigger] type_model(Type::Record(fields)) == Ty::Record(fields.deep_view()),
{
    assert(fields_model(fields) =~= fields.deep_view());
}

/// What an effect entry stands for is made of what its parts stand for.
pub broadcast proof fn entry_model_parts(e: EffectEntry)
    ensures
        #[trigger] entry_model(e) == (Entry { name: e.name@, args: e.args.deep_view() }),
{
    assert(types_model(e.args) =~= e.args.deep_view());
}

/// What an effect row stands for is made of what its parts stand for.
pub broadcast proof fn row_model_parts(r: EffectRow)
    ensures
        #[trigger] row_model(r) == (Row { effects: r.effects.deep_view(), tails: r.tails.deep_view() }),
{
    assert(types_model(r.tails) =~= r.tails.deep_view());
    assert(row_model(r).effects =~= r.effects.deep_view());
}

pub broadcast group group_type_models {
    fun_model,
    con_model,
    record_model,
    entry_model_parts,
    row_model_parts,
}

} // verus!
