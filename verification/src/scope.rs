//! Scopes: what the names that a module writes stand for.

use vstd::prelude::*;
use crate::seqs::{add_new, push_new};
use crate::table::Table;
use crate::values::Dup;

verus! {

/// How records of a type are built up: where to start, and how to add a field.
#[derive(Debug)]
pub struct RecordBuilderInfo {
    /// The canonical name of the type.
    pub context: String,
    pub start: String,
    pub field: String,
}

#[verifier::ext_equal]
pub struct BuilderModel {
    pub context: Seq<char>,
    pub start: Seq<char>,
    pub field: Seq<char>,
}

impl DeepView for RecordBuilderInfo {
    type V = BuilderModel;

    open spec fn deep_view(&self) -> BuilderModel {
        BuilderModel {
            context: self.context.deep_view(),
            start: self.start.deep_view(),
            field: self.field.deep_view(),
        }
    }
}

impl Dup for RecordBuilderInfo {
    fn dup(&self) -> (r: Self) {
        RecordBuilderInfo {
            context: self.context.dup(),
            start: self.start.dup(),
            field: self.field.dup(),
        }
    }
}

/// Maps from the names that are visible in a module to canonical names.
pub struct ScopeMap {
    /// Value name as written -> canonical name.
    pub values: Table<String, String>,
    /// Type name as written -> canonical name.
    pub types: Table<String, String>,
    /// Constructor name as written -> canonical name.
    pub constructors: Table<String, String>,
    /// Trait name as written -> canonical name.
    pub traits: Table<String, String>,
    /// Effect name as written -> canonical name.
    pub effects: Table<String, String>,
    /// Handler name as written -> canonical name.
    pub handlers: Table<String, String>,
    /// Canonical type name -> how its records are built.
    pub record_builders: Table<String, RecordBuilderInfo>,
    /// Canonical name -> the module that it comes from.
    pub origins: Table<String, String>,
    /// Effect operation -> the effects in scope that have it.
    pub effect_ops: Table<String, Vec<String>>,
    /// Trait method -> the traits in scope that have it.
    pub trait_methods: Table<String, Vec<String>>,
}

#[verifier::ext_equal]
pub struct ScopeModel {
    pub values: Map<Seq<char>, Seq<char>>,
    pub types: Map<Seq<char>, Seq<char>>,
    pub constructors: Map<Seq<char>, Seq<char>>,
    pub traits: Map<Seq<char>, Seq<char>>,
    pub effects: Map<Seq<char>, Seq<char>>,
    pub handlers: Map<Seq<char>, Seq<char>>,
    pub record_builders: Map<Seq<char>, BuilderModel>,
    pub origins: Map<Seq<char>, Seq<char>>,
    pub effect_ops: Map<Seq<char>, Seq<Seq<char>>>,
    pub trait_methods: Map<Seq<char>, Seq<Seq<char>>>,
}

impl DeepView for ScopeMap {
    type V = ScopeModel;

    open spec fn deep_view(&self) -> ScopeModel {
        ScopeModel {
            values: self.values.deep_view(),
            types: self.types.deep_view(),
            constructors: self.constructors.deep_view(),
            traits: self.traits.deep_view(),
            effects: self.effects.deep_view(),
            handlers: self.handlers.deep_view(),
            record_builders: self.record_builders.deep_view(),
            origins: self.origins.deep_view(),
            effect_ops: self.effect_ops.deep_view(),
            trait_methods: self.trait_methods.deep_view(),
        }
    }
}

impl Dup for ScopeMap {
    fn dup(&self) -> (r: Self) {
        ScopeMap {
            values: self.values.dup(),
            types: self.types.dup(),
            constructors: self.constructors.dup(),
            traits: self.traits.dup(),
            effects: self.effects.dup(),
            handlers: self.handlers.dup(),
            record_builders: self.record_builders.dup(),
            origins: self.origins.dup(),
            effect_ops: self.effect_ops.dup(),
            trait_methods: self.trait_methods.dup(),
        }
    }
}

/// The scope without names.
pub open spec fn empty_scope() -> ScopeModel {
    ScopeModel {
        values: Map::empty(),
        types: Map::empty(),
        constructors: Map::empty(),
        traits: Map::empty(),
        effects: Map::empty(),
        handlers: Map::empty(),
        record_builders: Map::empty(),
        origins: Map::empty(),
        effect_ops: Map::empty(),
        trait_methods: Map::empty(),
    }
}

/// What `name` stands for, if anything.
pub open spec fn lookup(m: Map<Seq<char>, Seq<char>>, name: Seq<char>) -> Option<Seq<char>> {
    if m.dom().contains(name) {
        Some(m[name])
    } else {
        None
    }
}

/// The providers listed at `member`.
pub open spec fn providers(m: Map<Seq<char>, Seq<Seq<char>>>, member: Seq<char>) -> Seq<Seq<char>> {
    if m.dom().contains(member) {
        m[member]
    } else {
        Seq::empty()
    }
}

/// `owner` added to the providers of one member.
pub open spec fn with_provider(
    owner: Seq<char>,
    m: Map<Seq<char>, Seq<Seq<char>>>,
    member: Seq<char>,
) -> Map<Seq<char>, Seq<Seq<char>>> {
    m.insert(member, add_new(providers(m, member), seq![owner]))
}

/// `owner` added to the providers of each of its members.
pub open spec fn with_members(
    owner: Seq<char>,
    acc: Map<Seq<char>, Seq<Seq<char>>>,
    items: Seq<Seq<char>>,
) -> Map<Seq<char>, Seq<Seq<char>>>
    decreases items.len(),
{
    if items.len() == 0 {
        acc
    } else {
        with_provider(owner, with_members(owner, acc, items.drop_last()), items.last())
    }
}

/// The members of both maps; where both list providers, those of `a` stand
/// first.
pub open spec fn with_all_members(
    a: Map<Seq<char>, Seq<Seq<char>>>,
    b: Map<Seq<char>, Seq<Seq<char>>>,
) -> Map<Seq<char>, Seq<Seq<char>>> {
    Map::new(
        |k: Seq<char>| a.dom().contains(k) || b.dom().contains(k),
        |k: Seq<char>| if b.dom().contains(k) { add_new(providers(a, k), b[k]) } else { a[k] },
    )
}

/// The names of both scopes: where both have a name, that of `b` holds.
pub open spec fn merged_scopes(a: ScopeModel, b: ScopeModel) -> ScopeModel {
    ScopeModel {
        values: a.values.union_prefer_right(b.values),
        types: a.types.union_prefer_right(b.types),
        constructors: a.constructors.union_prefer_right(b.constructors),
        traits: a.traits.union_prefer_right(b.traits),
        effects: a.effects.union_prefer_right(b.effects),
        handlers: a.handlers.union_prefer_right(b.handlers),
        record_builders: a.record_builders.union_prefer_right(b.record_builders),
        origins: a.origins.union_prefer_right(b.origins),
        effect_ops: with_all_members(a.effect_ops, b.effect_ops),
        trait_methods: with_all_members(a.trait_methods, b.trait_methods),
    }
}

/// Adds `owner` to the providers of `member`.
fn add_provider(owner: &str, acc: &mut Table<String, Vec<String>>, member: &String)
    ensures
        final(acc).deep_view() == with_provider(owner@, old(acc).deep_view(), member@),
{
    let mut owners: Vec<String> = match acc.get(member) {
        Some(v) => v.dup(),
        None => Vec::new(),
    };
    let ghost before = owners.deep_view();
    assert(before =~= providers(acc.deep_view(), member@));
    proof {
        crate::seqs::add_new_one(before, owner@);
    }
    push_new(&mut owners, owner.to_owned());
    acc.insert(member.clone(), owners);
}

/// Adds every provider that `more` lists for `member`.
fn add_owners(acc: &mut Table<String, Vec<String>>, member: &String, more: &Vec<String>)
    ensures
        final(acc).deep_view() == old(acc).deep_view().insert(
            member@,
            add_new(providers(old(acc).deep_view(), member@), more.deep_view()),
        ),
{
    let mut owners: Vec<String> = match acc.get(member) {
        Some(v) => v.dup(),
        None => Vec::new(),
    };
    let ghost before = owners.deep_view();
    assert(before =~= providers(acc.deep_view(), member@));
    let ghost all = more.deep_view();
    let mut i: usize = 0;
    assert(all.take(0) =~= Seq::empty());
    while i < more.len()
        invariant
            i <= more.len(),
            all == more.deep_view(),
            owners.deep_view() == add_new(before, all.take(i as int)),
        decreases more.len() - i,
    {
        proof {
            crate::seqs::add_new_in_turn(before, all.take(i as int), seq![all[i as int]]);
            crate::seqs::add_new_one(add_new(before, all.take(i as int)), all[i as int]);
            assert(all.take(i + 1) =~= all.take(i as int) + seq![all[i as int]]);
        }
        push_new(&mut owners, more[i].clone());
        i = i + 1;
    }
    assert(all.take(i as int) =~= all);
    acc.insert(member.clone(), owners);
}

fn add_members(owner: &str, acc: &mut Table<String, Vec<String>>, items: &Vec<String>)
    ensures
        final(acc).deep_view() == with_members(owner@, old(acc).deep_view(), items.deep_view()),
{
    let ghost a0 = acc.deep_view();
    let ghost all = items.deep_view();
    let mut i: usize = 0;
    assert(all.take(0) =~= Seq::empty());
    while i < items.len()
        invariant
            i <= items.len(),
            all == items.deep_view(),
            acc.deep_view() == with_members(owner@, a0, all.take(i as int)),
        decreases items.len() - i,
    {
        proof {
            assert(all.take(i + 1).drop_last() =~= all.take(i as int));
            assert(all.take(i + 1).last() == all[i as int]);
        }
        add_provider(owner, acc, &items[i]);
        i = i + 1;
    }
    assert(all.take(i as int) =~= all);
}

/// Adds the members that `other` lists.
fn add_all_members(acc: &mut Table<String, Vec<String>>, other: &Table<String, Vec<String>>)
    ensures
        final(acc).deep_view() == with_all_members(old(acc).deep_view(), other.deep_view()),
{
    let ghost a = acc.deep_view();
    let ghost b = other.deep_view();
    let ghost all = other.order();
    let n = other.len();
    let mut i: usize = 0;
    while i < n
        invariant
            i <= n,
            n == all.len(),
            all == other.order(),
            b == other.deep_view(),
            crate::table::lists(all, b),
            forall|k: Seq<char>| #[trigger]
                acc.deep_view().dom().contains(k) <==> a.dom().contains(k) || listed(
                    all.take(i as int),
                    k,
                ),
            forall|k: Seq<char>| #[trigger]
                acc.deep_view().dom().contains(k) ==> acc.deep_view()[k] == (if listed(
                    all.take(i as int),
                    k,
                ) {
                    add_new(providers(a, k), b[k])
                } else {
                    a[k]
                }),
        decreases n - i,
    {
        let ghost before = acc.deep_view();
        let ghost e = all[i as int];
        let ghost done = all.take(i as int);
        proof {
            assert(all.take(i + 1) =~= done.push(e));
            if listed(done, e.0) {
                let j = choose|j: int| 0 <= j < done.len() && (#[trigger] done[j]).0 == e.0;
                assert(all[j].0 == all[i as int].0);
            }
            assert forall|k: Seq<char>| listed(all.take(i + 1), k) <==> listed(done, k) || k
                == e.0 by {
                if listed(done, k) {
                    let j = choose|j: int| 0 <= j < done.len() && (#[trigger] done[j]).0 == k;
                    assert(all.take(i + 1)[j].0 == k);
                }
                if k == e.0 {
                    assert(all.take(i + 1)[i as int].0 == k);
                }
                if listed(all.take(i + 1), k) && k != e.0 {
                    let j = choose|j: int|
                        0 <= j < all.take(i + 1).len() && (#[trigger] all.take(i + 1)[j]).0 == k;
                    assert(done[j].0 == k);
                }
            }
            assert(before.dom().contains(e.0) <==> a.dom().contains(e.0));
            assert(providers(before, e.0) == providers(a, e.0));
        }
        add_owners(acc, other.key(i), other.value(i));
        i = i + 1;
    }
    proof {
        assert(all.take(i as int) =~= all);
        assert forall|k: Seq<char>| listed(all, k) <==> b.dom().contains(k) by {
            if b.dom().contains(k) {
                let j = choose|j: int| 0 <= j < all.len() && (#[trigger] all[j]).0 == k;
                assert(all[j].0 == k);
            }
        }
        assert(acc.deep_view() =~= with_all_members(a, b));
    }
}

/// Whether a list of entries has one for `k`.
spec fn listed(entries: Seq<(Seq<char>, Seq<Seq<char>>)>, k: Seq<char>) -> bool {
    crate::table::has_key(entries, k)
}

impl ScopeMap {
    /// The scope without names.
    pub fn new() -> (r: Self)
        ensures
            r.deep_view() == empty_scope(),
    {
        ScopeMap {
            values: Table::new(),
            types: Table::new(),
            constructors: Table::new(),
            traits: Table::new(),
            effects: Table::new(),
            handlers: Table::new(),
            record_builders: Table::new(),
            origins: Table::new(),
            effect_ops: Table::new(),
            trait_methods: Table::new(),
        }
    }

    pub fn resolve_value(&self, name: &str) -> (r: Option<&String>)
        ensures
            r.deep_view() == lookup(self.deep_view().values, name@),
    {
        self.values.named(name)
    }

    pub fn resolve_type(&self, name: &str) -> (r: Option<&String>)
        ensures
            r.deep_view() == lookup(self.deep_view().types, name@),
    {
        self.types.named(name)
    }

    pub fn resolve_constructor(&self, name: &str) -> (r: Option<&String>)
        ensures
            r.deep_view() == lookup(self.deep_view().constructors, name@),
    {
        self.constructors.named(name)
    }

    pub fn resolve_trait(&self, name: &str) -> (r: Option<&String>)
        ensures
            r.deep_view() == lookup(self.deep_view().traits, name@),
    {
        self.traits.named(name)
    }

    pub fn resolve_effect(&self, name: &str) -> (r: Option<&String>)
        ensures
            r.deep_view() == lookup(self.deep_view().effects, name@),
    {
        self.effects.named(name)
    }

    pub fn resolve_handler(&self, name: &str) -> (r: Option<&String>)
        ensures
            r.deep_view() == lookup(self.deep_view().handlers, name@),
    {
        self.handlers.named(name)
    }

    /// Takes over the names of `other`, which win over the names that are there.
    pub fn merge(&mut self, other: &ScopeMap)
        ensures
            final(self).deep_view() == merged_scopes(old(self).deep_view(), other.deep_view()),
    {
        self.values.put_all(&other.values);
        self.types.put_all(&other.types);
        self.constructors.put_all(&other.constructors);
        self.traits.put_all(&other.traits);
        self.effects.put_all(&other.effects);
        self.handlers.put_all(&other.handlers);
        self.record_builders.put_all(&other.record_builders);
        self.origins.put_all(&other.origins);
        add_all_members(&mut self.effect_ops, &other.effect_ops);
        add_all_members(&mut self.trait_methods, &other.trait_methods);
    }

    /// Makes the operations of an effect visible by their bare names.
    pub fn register_effect_ops(&mut self, effect: &str, ops: &Vec<String>)
        ensures
            final(self).deep_view() == (ScopeModel {
                effect_ops: with_members(
                    effect@,
                    old(self).deep_view().effect_ops,
                    ops.deep_view(),
                ),
                ..old(self).deep_view()
            }),
    {
        add_members(effect, &mut self.effect_ops, ops);
    }

    /// Makes the methods of a trait visible by their bare names.
    pub fn register_trait_methods(&mut self, trait_name: &str, methods: &Vec<String>)
        ensures
            final(self).deep_view() == (ScopeModel {
                trait_methods: with_members(
                    trait_name@,
                    old(self).deep_view().trait_methods,
                    methods.deep_view(),
                ),
                ..old(self).deep_view()
            }),
    {
        add_members(trait_name, &mut self.trait_methods, methods);
    }
}

/// The canonical names that the names of a scope stand for.
pub open spec fn canonicals(s: ScopeModel) -> Set<Seq<char>> {
    Set::new(
        |c: Seq<char>|
            s.values.values().contains(c) || s.handlers.values().contains(c)
                || s.constructors.values().contains(c) || s.effects.values().contains(c)
                || s.traits.values().contains(c) || s.types.values().contains(c),
    )
}

/// A merged scope answers by the later scope where that one has an answer, and
/// by the earlier one elsewhere.
pub proof fn merged_scopes_answer(a: ScopeModel, b: ScopeModel, name: Seq<char>)
    ensures
        lookup(merged_scopes(a, b).values, name) == (if lookup(b.values, name) is Some {
            lookup(b.values, name)
        } else {
            lookup(a.values, name)
        }),
        lookup(merged_scopes(a, b).types, name) == (if lookup(b.types, name) is Some {
            lookup(b.types, name)
        } else {
            lookup(a.types, name)
        }),
        lookup(merged_scopes(a, b).constructors, name) == (if lookup(b.constructors, name) is Some {
            lookup(b.constructors, name)
        } else {
            lookup(a.constructors, name)
        }),
{
}

} // verus!
