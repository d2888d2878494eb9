//! Copying, comparing and building types and effect rows.

use vstd::prelude::*;
use crate::names::{
    builtin_canonical_names, canonical_names_are_fixed, canonical_type_name, canonicalize_type_name,
};
use crate::seqs::{add_new, add_new_absorbs, add_new_contains, filter_contains, push_new};
use crate::types::{EffectEntry, EffectRow, Entry, Row, Ty, Type, group_type_models};
use crate::values::{contains_value, push_value, Dup, Same};

verus! {

broadcast use group_type_models;

fn dup_type(t: &Type) -> (r: Type)
    ensures
        r@ == t@,
    decreases t,
{
    match t {
        Type::Var(id) => Type::Var(*id),
        Type::Fun(a, b, row) => Type::Fun(
            Box::new(dup_type(a)),
            Box::new(dup_type(b)),
            dup_row(row),
        ),
        Type::Con(name, args) => Type::Con(name.clone(), dup_types(args)),
        Type::Record(fields) => Type::Record(dup_fields(fields)),
        Type::Symbol(name) => Type::Symbol(name.clone()),
        Type::Error => Type::Error,
    }
}

fn dup_types(v: &Vec<Type>) -> (r: Vec<Type>)
    ensures
        r.deep_view() == v.deep_view(),
    decreases v,
{
    let mut out: Vec<Type> = Vec::new();
    let mut i: usize = 0;
    while i < v.len()
        invariant
            i <= v.len(),
            out.deep_view() == v.deep_view().take(i as int),
        decreases v.len() - i,
    {
        let x = dup_type(&v[i]);
        push_value(&mut out, x);
        assert(v.deep_view().take(i + 1) =~= v.deep_view().take(i as int).push(v@[i as int]@));
        i = i + 1;
    }
    assert(v.deep_view().take(i as int) =~= v.deep_view());
    out
}

fn dup_fields(v: &Vec<(String, Type)>) -> (r: Vec<(String, Type)>)
    ensures
        r.deep_view() == v.deep_view(),
    decreases v,
{
    let mut out: Vec<(String, Type)> = Vec::new();
    let mut i: usize = 0;
    while i < v.len()
        invariant
            i <= v.len(),
            out.deep_view() == v.deep_view().take(i as int),
        decreases v.len() - i,
    {
        let x = (v[i].0.clone(), dup_type(&v[i].1));
        push_value(&mut out, x);
        assert(v.deep_view().take(i + 1) =~= v.deep_view().take(i as int).push(v@[i as int].deep_view()));
        i = i + 1;
    }
    assert(v.deep_view().take(i as int) =~= v.deep_view());
    out
}

fn dup_row(row: &EffectRow) -> (r: EffectRow)
    ensures
        r@ == row@,
    decreases row,
{
    let mut effects: Vec<EffectEntry> = Vec::new();
    let mut i: usize = 0;
    while i < row.effects.len()
        invariant
            i <= row.effects.len(),
            effects.deep_view() == row.effects.deep_view().take(i as int),
        decreases row.effects.len() - i,
    {
        let x = EffectEntry {
            name: row.effects[i].name.clone(),
            args: dup_types(&row.effects[i].args),
        };
        push_value(&mut effects, x);
        assert(row.effects.deep_view().take(i + 1) =~= row.effects.deep_view().take(i as int).push(
            row.effects@[i as int]@,
        ));
        i = i + 1;
    }
    assert(row.effects.deep_view().take(i as int) =~= row.effects.deep_view());
    EffectRow { effects, tails: dup_types(&row.tails) }
}

fn same_type(t: &Type, u: &Type) -> (r: bool)
    ensures
        r == (t@ == u@),
    decreases t,
{
    match (t, u) {
        (Type::Var(x), Type::Var(y)) => *x == *y,
        (Type::Fun(a, b, r), Type::Fun(c, d, s)) => same_type(a, c) && same_type(b, d) && same_row(
            r,
            s,
        ),
        (Type::Con(x, a), Type::Con(y, b)) => *x == *y && same_types(a, b),
        (Type::Record(a), Type::Record(b)) => same_fields(a, b),
        (Type::Symbol(x), Type::Symbol(y)) => *x == *y,
        (Type::Error, Type::Error) => true,
        _ => false,
    }
}

fn same_types(v: &Vec<Type>, w: &Vec<Type>) -> (r: bool)
    ensures
        r == (v.deep_view() == w.deep_view()),
    decreases v,
{
    if v.len() != w.len() {
        assert(v.deep_view().len() != w.deep_view().len());
        return false;
    }
    let mut i: usize = 0;
    while i < v.len()
        invariant
            i <= v.len(),
            v.len() == w.len(),
            forall|j: int| 0 <= j < i ==> v.deep_view()[j] == w.deep_view()[j],
        decreases v.len() - i,
    {
        if !same_type(&v[i], &w[i]) {
            assert(v.deep_view()[i as int] != w.deep_view()[i as int]);
            return false;
        }
        i = i + 1;
    }
    assert(v.deep_view() =~= w.deep_view());
    true
}

fn same_fields(v: &Vec<(String, Type)>, w: &Vec<(String, Type)>) -> (r: bool)
    ensures
        r == (v.deep_view() == w.deep_view()),
    decreases v,
{
    if v.len() != w.len() {
        assert(v.deep_view().len() != w.deep_view().len());
        return false;
    }
    let mut i: usize = 0;
    while i < v.len()
        invariant
            i <= v.len(),
            v.len() == w.len(),
            forall|j: int| 0 <= j < i ==> v.deep_view()[j] == w.deep_view()[j],
        decreases v.len() - i,
    {
        if v[i].0 != w[i].0 || !same_type(&v[i].1, &w[i].1) {
            assert(v.deep_view()[i as int] != w.deep_view()[i as int]);
            return false;
        }
        i = i + 1;
    }
    assert(v.deep_view() =~= w.deep_view());
    true
}

fn same_row(v: &EffectRow, w: &EffectRow) -> (r: bool)
    ensures
        r == (v@ == w@),
    decreases v,
{
    if v.effects.len() != w.effects.len() {
        assert(v.effects.deep_view().len() != w.effects.deep_view().len());
        return false;
    }
    let mut i: usize = 0;
    while i < v.effects.len()
        invariant
            i <= v.effects.len(),
            v.effects.len() == w.effects.len(),
            forall|j: int| 0 <= j < i ==> v.effects.deep_view()[j] == w.effects.deep_view()[j],
        decreases v.effects.len() - i,
    {
        if v.effects[i].name != w.effects[i].name || !same_types(
            &v.effects[i].args,
            &w.effects[i].args,
        ) {
            assert(v.effects.deep_view()[i as int] != w.effects.deep_view()[i as int]);
            return false;
        }
        i = i + 1;
    }
    assert(v.effects.deep_view() =~= w.effects.deep_view());
    same_types(&v.tails, &w.tails)
}

impl Dup for Type {
    fn dup(&self) -> (r: Self) {
        dup_type(self)
    }
}

impl Same for Type {
    fn same(&self, other: &Self) -> (r: bool) {
        same_type(self, other)
    }
}

impl Dup for EffectRow {
    fn dup(&self) -> (r: Self) {
        dup_row(self)
    }
}

impl Same for EffectRow {
    fn same(&self, other: &Self) -> (r: bool) {
        same_row(self, other)
    }
}

impl Dup for EffectEntry {
    fn dup(&self) -> (r: Self) {
        EffectEntry { name: self.name.clone(), args: dup_types(&self.args) }
    }
}

impl Same for EffectEntry {
    fn same(&self, other: &Self) -> (r: bool) {
        self.name == other.name && same_types(&self.args, &other.args)
    }
}


/// The variables among `tails`.
pub open spec fn var_ids(tails: Seq<Ty>) -> Seq<u32>
    decreases tails.len(),
{
    if tails.len() == 0 {
        Seq::empty()
    } else {
        match tails.last() {
            Ty::Var(id) => var_ids(tails.drop_last()).push(id),
            _ => var_ids(tails.drop_last()),
        }
    }
}

/// The entries that none of `handled` is the same instantiation as.
pub open spec fn not_handled(effects: Seq<Entry>, handled: Seq<Entry>) -> Seq<Entry> {
    effects.filter(|e: Entry| !handled.contains(e))
}

/// The entries whose effect is not among `handled`.
pub open spec fn not_named(effects: Seq<Entry>, handled: Seq<Seq<char>>) -> Seq<Entry> {
    effects.filter(|e: Entry| !handled.contains(e.name))
}

impl EffectEntry {
    pub fn unnamed(name: String, args: Vec<Type>) -> (r: Self)
        ensures
            r@ == (Entry { name: name@, args: args.deep_view() }),
    {
        EffectEntry { name, args }
    }

    /// Two entries are in the same effect family if they share a canonical name.
    pub fn matches(&self, other: &EffectEntry) -> (r: bool)
        ensures
            r == (self@.name == other@.name),
    {
        self.name == other.name
    }

    /// Whether the entries agree in name and arguments.
    pub fn same_instantiation(&self, other: &EffectEntry) -> (r: bool)
        ensures
            r == (self@ == other@),
    {
        self.same(other)
    }
}

impl EffectRow {
    pub fn closed(effects: Vec<EffectEntry>) -> (r: Self)
        ensures
            r@ == (Row { effects: effects.deep_view(), tails: Seq::empty() }),
    {
        let tails: Vec<Type> = Vec::new();
        assert(tails.deep_view() =~= Seq::empty());
        EffectRow { effects, tails }
    }

    /// Empty closed row (pure: no effects).
    pub fn empty() -> (r: Self)
        ensures
            r@ == (Row { effects: Seq::empty(), tails: Seq::empty() }),
    {
        let effects: Vec<EffectEntry> = Vec::new();
        assert(effects.deep_view() =~= Seq::empty());
        EffectRow::closed(effects)
    }

    /// True if this is a closed row with no effects.
    pub fn is_empty(&self) -> (r: bool)
        ensures
            r == (self@ == Row { effects: Seq::empty(), tails: Seq::empty() }),
    {
        let r = self.effects.len() == 0 && self.tails.len() == 0;
        assert(self.effects.deep_view().len() == self.effects.len());
        assert(self.tails.deep_view().len() == self.tails.len());
        assert(r ==> self@.effects =~= Seq::empty() && self@.tails =~= Seq::empty());
        r
    }

    /// True if the row has at least one open tail.
    pub fn is_open(&self) -> (r: bool)
        ensures
            r == (self@.tails.len() > 0),
    {
        assert(self.tails.deep_view().len() == self.tails.len());
        self.tails.len() != 0
    }

    /// The variables among the tails, in order.
    pub fn tail_var_ids(&self) -> (r: Vec<u32>)
        ensures
            r@ == var_ids(self@.tails),
    {
        let mut out: Vec<u32> = Vec::new();
        let mut i: usize = 0;
        while i < self.tails.len()
            invariant
                i <= self.tails.len(),
                out@ == var_ids(self.tails.deep_view().take(i as int)),
            decreases self.tails.len() - i,
        {
            proof {
                let next = self.tails.deep_view().take(i + 1);
                assert(next.drop_last() =~= self.tails.deep_view().take(i as int));
                assert(next.last() == self.tails@[i as int]@);
            }
            if let Type::Var(id) = &self.tails[i] {
                out.push(*id);
            }
            i = i + 1;
        }
        assert(self.tails.deep_view().take(i as int) =~= self.tails.deep_view());
        out
    }

    /// Merge two closed effect rows, preserving distinct instantiations of the
    /// same effect family.
    pub fn merge(&self, other: &EffectRow) -> (r: EffectRow)
        ensures
            r@ == (Row {
                effects: add_new(self@.effects, other@.effects),
                tails: Seq::empty(),
            }),
    {
        let mut effects = self.effects.dup();
        let mut i: usize = 0;
        assert(other.effects.deep_view().take(0) =~= Seq::empty());
        while i < other.effects.len()
            invariant
                i <= other.effects.len(),
                effects.deep_view() == add_new(
                    self.effects.deep_view(),
                    other.effects.deep_view().take(i as int),
                ),
            decreases other.effects.len() - i,
        {
            proof {
                let next = other.effects.deep_view().take(i + 1);
                assert(next.drop_last() =~= other.effects.deep_view().take(i as int));
                assert(next.last() == other.effects@[i as int]@);
            }
            push_new(&mut effects, other.effects[i].dup());
            i = i + 1;
        }
        assert(other.effects.deep_view().take(i as int) =~= other.effects.deep_view());
        EffectRow::closed(effects)
    }

    /// Remove handled effects by family name.
    pub fn subtract(&self, handled: &Vec<String>) -> (r: EffectRow)
        ensures
            r@ == (Row {
                effects: not_named(self@.effects, handled.deep_view()),
                tails: self@.tails,
            }),
    {
        let mut effects: Vec<EffectEntry> = Vec::new();
        let mut i: usize = 0;
        proof {
            reveal(Seq::filter);
            assert(effects.deep_view() =~= not_named(
                self.effects.deep_view().take(0),
                handled.deep_view(),
            ));
        }
        while i < self.effects.len()
            invariant
                i <= self.effects.len(),
                effects.deep_view() == not_named(
                    self.effects.deep_view().take(i as int),
                    handled.deep_view(),
                ),
            decreases self.effects.len() - i,
        {
            proof {
                reveal(Seq::filter);
                let next = self.effects.deep_view().take(i + 1);
                assert(next.drop_last() =~= self.effects.deep_view().take(i as int));
                assert(next.last() == self.effects@[i as int]@);
            }
            if !contains_value(handled, &self.effects[i].name) {
                push_value(&mut effects, self.effects[i].dup());
            }
            i = i + 1;
        }
        assert(self.effects.deep_view().take(i as int) =~= self.effects.deep_view());
        EffectRow { effects, tails: dup_types(&self.tails) }
    }

    /// Remove handled effects by exact instantiation.
    pub fn subtract_entries(&self, handled: &Vec<EffectEntry>) -> (r: EffectRow)
        ensures
            r@ == (Row {
                effects: not_handled(self@.effects, handled.deep_view()),
                tails: self@.tails,
            }),
    {
        let mut effects: Vec<EffectEntry> = Vec::new();
        let mut i: usize = 0;
        proof {
            reveal(Seq::filter);
            assert(effects.deep_view() =~= not_handled(
                self.effects.deep_view().take(0),
                handled.deep_view(),
            ));
        }
        while i < self.effects.len()
            invariant
                i <= self.effects.len(),
                effects.deep_view() == not_handled(
                    self.effects.deep_view().take(i as int),
                    handled.deep_view(),
                ),
            decreases self.effects.len() - i,
        {
            proof {
                reveal(Seq::filter);
                let next = self.effects.deep_view().take(i + 1);
                assert(next.drop_last() =~= self.effects.deep_view().take(i as int));
                assert(next.last() == self.effects@[i as int]@);
            }
            if !contains_value(handled, &self.effects[i]) {
                push_value(&mut effects, self.effects[i].dup());
            }
            i = i + 1;
        }
        assert(self.effects.deep_view().take(i as int) =~= self.effects.deep_view());
        EffectRow { effects, tails: dup_types(&self.tails) }
    }
}

/// Merging a row with itself, or with rows already merged in, adds nothing; an
/// effect is in the merged row just where it is in one of the two; and the
/// merged row is closed.
pub proof fn merge_is_union(a: Row, b: Row)
    ensures
        add_new(a.effects, a.effects) == a.effects,
        add_new(add_new(a.effects, b.effects), b.effects) == add_new(a.effects, b.effects),
        forall|e: Entry| #[trigger]
            add_new(a.effects, b.effects).contains(e) <==> a.effects.contains(e)
                || b.effects.contains(e),
{
    add_new_absorbs(a.effects, a.effects);
    assert forall|e: Entry| #[trigger]
        add_new(a.effects, b.effects).contains(e) <==> a.effects.contains(e) || b.effects.contains(
            e,
        ) by {
        add_new_contains(a.effects, b.effects, e);
    }
    assert forall|i: int| 0 <= i < b.effects.len() implies add_new(a.effects, b.effects).contains(
        #[trigger] b.effects[i],
    ) by {
        add_new_contains(a.effects, b.effects, b.effects[i]);
    }
    add_new_absorbs(add_new(a.effects, b.effects), b.effects);
}

/// What handling leaves over of a row is what it had and was not handled: no
/// handled effect is left, and every other one is.
pub proof fn subtract_leaves_the_unhandled(effects: Seq<Entry>, handled: Seq<Seq<char>>, e: Entry)
    ensures
        not_named(
            effects,
            handled,
        ).contains(e) <==> effects.contains(e) && !handled.contains(e.name),
{
    filter_contains(effects, |x: Entry| !handled.contains(x.name), e);
}

/// The type of that name, without arguments.
pub open spec fn con_ty(name: Seq<char>) -> Ty {
    Ty::Con(name, Seq::empty())
}

/// The pure function type.
pub open spec fn arrow_ty(a: Ty, b: Ty) -> Ty {
    Ty::Fun(Box::new(a), Box::new(b), Row { effects: Seq::empty(), tails: Seq::empty() })
}

impl Type {
    /// Pure function type: a -> b with empty closed effect row.
    pub fn arrow(a: Type, b: Type) -> (r: Type)
        ensures
            r@ == arrow_ty(a@, b@),
    {
        Type::Fun(Box::new(a), Box::new(b), EffectRow::empty())
    }

    pub fn con(name: &str) -> (r: Type)
        ensures
            r@ == con_ty(canonical_type_name(name@)),
    {
        let args: Vec<Type> = Vec::new();
        assert(args.deep_view() =~= Seq::empty());
        Type::Con(canonicalize_type_name(name).to_owned(), args)
    }

    pub fn int_type() -> (r: Type)
        ensures
            r@ == con_ty("Std.Int.Int"@),
    {
        proof {
            builtin_canonical_names();
            canonical_names_are_fixed("Int"@);
        }
        Type::con(canonicalize_type_name("Int"))
    }

    pub fn float() -> (r: Type)
        ensures
            r@ == con_ty("Std.Float.Float"@),
    {
        proof {
            builtin_canonical_names();
            canonical_names_are_fixed("Float"@);
        }
        Type::con(canonicalize_type_name("Float"))
    }

    pub fn string() -> (r: Type)
        ensures
            r@ == con_ty("Std.String.String"@),
    {
        proof {
            builtin_canonical_names();
            canonical_names_are_fixed("String"@);
        }
        Type::con(canonicalize_type_name("String"))
    }

    pub fn bool() -> (r: Type)
        ensures
            r@ == con_ty("Std.Bool.Bool"@),
    {
        proof {
            builtin_canonical_names();
            canonical_names_are_fixed("Bool"@);
        }
        Type::con(canonicalize_type_name("Bool"))
    }

    pub fn unit() -> (r: Type)
        ensures
            r@ == con_ty("Std.Base.Unit"@),
    {
        proof {
            builtin_canonical_names();
            canonical_names_are_fixed("Unit"@);
        }
        Type::con(canonicalize_type_name("Unit"))
    }
}

} // verus!
