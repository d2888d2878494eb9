//! The traits that bound variables are known to have.

use vstd::prelude::*;
use crate::ast::{TraitBound, TraitRef};
use crate::checker::{resolved_name, Checker, CheckerModel, LspModel, TraitStateModel};
use crate::exports::first_at;
use crate::fun_types::find_var;
use crate::seqs::{add_new, add_new_one, push_new};
use crate::table::{at_key, put, Table};
use crate::types::{Ty, Type};
use crate::values::{append_values, push_value, Dup};

verus! {

/// The traits that a variable is known to have.
pub open spec fn known_traits(bounds: Seq<(u32, Seq<Seq<char>>)>, id: u32) -> Seq<Seq<char>> {
    match at_key(bounds, id) {
        Some(traits) => traits,
        None => Seq::empty(),
    }
}

/// One more trait that a variable is known to have.
pub open spec fn with_known_trait(
    bounds: Seq<(u32, Seq<Seq<char>>)>,
    id: u32,
    name: Seq<char>,
) -> Seq<(u32, Seq<Seq<char>>)> {
    put(bounds, id, add_new(known_traits(bounds, id), seq![name]))
}

/// Records that a variable has a trait.
pub fn know_trait(bounds: &mut Table<u32, Vec<String>>, id: u32, name: String)
    ensures
        final(bounds).order() == with_known_trait(old(bounds).order(), id, name@),
{
    let mut traits = match bounds.get(&id) {
        Some(traits) => traits.dup(),
        None => {
            let none: Vec<String> = Vec::new();
            assert(none.deep_view() =~= Seq::empty());
            none
        },
    };
    proof {
        add_new_one(traits.deep_view(), name@);
    }
    push_new(&mut traits, name);
    bounds.insert(id, traits);
}

/// The trait that a reference names.
pub open spec fn trait_at(c: CheckerModel, t: TraitRef) -> Seq<char> {
    resolved_name(c.resolution.trait_refs, t.id, t.name@)
}

/// The state with a trait of a bound. `args` are the further arguments of the
/// trait.
pub open spec fn with_bound_trait(
    c: CheckerModel,
    id: u32,
    t: TraitRef,
    args: Seq<Ty>,
) -> CheckerModel {
    let name = trait_at(c, t);
    CheckerModel {
        lsp: LspModel { type_references: c.lsp.type_references.push((t.span, name)), ..c.lsp },
        trait_state: TraitStateModel {
            where_bounds: with_known_trait(c.trait_state.where_bounds, id, name),
            where_bound_trait_args: if t.type_args@.len() == 0 {
                c.trait_state.where_bound_trait_args
            } else {
                put(c.trait_state.where_bound_trait_args, (id, name), args)
            },
            ..c.trait_state
        },
        ..c
    }
}

/// The state with the first `n` traits of a bound.
pub open spec fn with_bound_traits(
    c: CheckerModel,
    id: u32,
    traits: Seq<TraitRef>,
    args: Seq<Seq<Ty>>,
    n: nat,
) -> CheckerModel
    decreases n,
{
    if n == 0 {
        c
    } else {
        with_bound_trait(
            with_bound_traits(c, id, traits, args, (n - 1) as nat),
            id,
            traits[n - 1],
            args[n - 1],
        )
    }
}

/// The state with a bound of a where clause, where its variable is one of `vars`.
pub open spec fn with_where_bound(
    c: CheckerModel,
    vars: Seq<(Seq<char>, u32)>,
    b: TraitBound,
    args: Seq<Seq<Ty>>,
) -> CheckerModel {
    match first_at(vars, b.type_var@) {
        Some(id) => with_bound_traits(
            CheckerModel {
                trait_state: TraitStateModel {
                    where_bound_var_names: put(
                        c.trait_state.where_bound_var_names,
                        id,
                        b.type_var@,
                    ),
                    ..c.trait_state
                },
                ..c
            },
            id,
            b.traits@,
            args,
            b.traits@.len(),
        ),
        None => c,
    }
}

/// The variables that first occur in the trait arguments of each bound.
pub type Introduced = Seq<Seq<(Seq<char>, u32)>>;

/// The variables that are known after the first `n` bounds.
pub open spec fn known_vars(
    vars: Seq<(Seq<char>, u32)>,
    introduced: Introduced,
    n: nat,
) -> Seq<(Seq<char>, u32)>
    decreases n,
{
    if n == 0 {
        vars
    } else {
        known_vars(vars, introduced, (n - 1) as nat) + introduced[n - 1]
    }
}

/// The state with the first `n` bounds of a where clause. A bound may speak of the
/// variables that the ones before it introduce.
pub open spec fn with_where_bounds(
    c: CheckerModel,
    vars: Seq<(Seq<char>, u32)>,
    introduced: Introduced,
    bounds: Seq<TraitBound>,
    args: Seq<Seq<Seq<Ty>>>,
    n: nat,
) -> CheckerModel
    decreases n,
{
    if n == 0 {
        c
    } else {
        with_where_bound(
            with_where_bounds(c, vars, introduced, bounds, args, (n - 1) as nat),
            known_vars(vars, introduced, (n - 1) as nat),
            bounds[n - 1],
            args[n - 1],
        )
    }
}

/// Two states with the same traits, in which names of traits stand for the same.
pub open spec fn same_traits(c: CheckerModel, other: CheckerModel) -> bool {
    &&& c.trait_state.traits == other.trait_state.traits
    &&& c.scope_map == other.scope_map
    &&& c.current_module == other.current_module
}

/// The bounds of a where clause change no trait, and not what names of traits stand
/// for.
pub proof fn where_bounds_keep_traits(
    c: CheckerModel,
    vars: Seq<(Seq<char>, u32)>,
    introduced: Introduced,
    bounds: Seq<TraitBound>,
    args: Seq<Seq<Seq<Ty>>>,
    n: nat,
)
    ensures
        same_traits(c, with_where_bounds(c, vars, introduced, bounds, args, n)),
    decreases n,
{
    if n > 0 {
        let m = (n - 1) as nat;
        where_bounds_keep_traits(c, vars, introduced, bounds, args, m);
        let before = with_where_bounds(c, vars, introduced, bounds, args, m);
        let b = bounds[n - 1];
        if let Some(id) = first_at(known_vars(vars, introduced, m), b.type_var@) {
            let named = CheckerModel {
                trait_state: TraitStateModel {
                    where_bound_var_names: put(
                        before.trait_state.where_bound_var_names,
                        id,
                        b.type_var@,
                    ),
                    ..before.trait_state
                },
                ..before
            };
            bound_traits_keep_traits(named, id, b.traits@, args[n - 1], b.traits@.len());
        }
    }
}

proof fn bound_traits_keep_traits(
    c: CheckerModel,
    id: u32,
    traits: Seq<TraitRef>,
    args: Seq<Seq<Ty>>,
    n: nat,
)
    ensures
        same_traits(c, with_bound_traits(c, id, traits, args, n)),
    decreases n,
{
    if n > 0 {
        bound_traits_keep_traits(c, id, traits, args, (n - 1) as nat);
    }
}

/// Whether there are further arguments for each trait of each bound.
pub open spec fn args_fit(bounds: Seq<TraitBound>, args: Seq<Seq<Seq<Ty>>>) -> bool {
    &&& args.len() == bounds.len()
    &&& forall|i: int|
        0 <= i < bounds.len() ==> #[trigger] args[i].len() == bounds[i].traits@.len()
}

impl Checker {
    fn add_bound_traits(&mut self, id: u32, traits: &Vec<TraitRef>, args: &Vec<Vec<Type>>)
        requires
            args.len() == traits.len(),
        ensures
            final(self).deep_view() == with_bound_traits(
                old(self).deep_view(),
                id,
                traits@,
                args.deep_view(),
                traits@.len(),
            ),
    {
        let ghost c0 = self.deep_view();
        let mut i: usize = 0;
        while i < traits.len()
            invariant
                i <= traits.len(),
                args.len() == traits.len(),
                self.deep_view() == with_bound_traits(
                    c0,
                    id,
                    traits@,
                    args.deep_view(),
                    i as nat,
                ),
            decreases traits.len() - i,
        {
            let t = &traits[i];
            let name = self.resolved_trait_name_at(t.id, t.name.as_str());
            push_value(&mut self.lsp.type_references, (t.span, name.clone()));
            know_trait(&mut self.trait_state.where_bounds, id, name.clone());
            if t.type_args.len() != 0 {
                self.trait_state.where_bound_trait_args.insert((id, name), args[i].dup());
            }
            i = i + 1;
        }
    }

    /// Records the bounds of a where clause, and gives back the variables that are
    /// known after it. `args` are the converted further arguments of their traits,
    /// and `introduced` the variables that first occur there.
    pub fn add_where_bounds(
        &mut self,
        vars: &Vec<(String, u32)>,
        introduced: &Vec<Vec<(String, u32)>>,
        bounds: &Vec<TraitBound>,
        args: &Vec<Vec<Vec<Type>>>,
    ) -> (r: Vec<(String, u32)>)
        requires
            args_fit(bounds@, args.deep_view()),
            introduced.len() == bounds.len(),
        ensures
            r.deep_view() == known_vars(
                vars.deep_view(),
                introduced.deep_view(),
                bounds@.len(),
            ),
            final(self).deep_view() == with_where_bounds(
                old(self).deep_view(),
                vars.deep_view(),
                introduced.deep_view(),
                bounds@,
                args.deep_view(),
                bounds@.len(),
            ),
    {
        let ghost c0 = self.deep_view();
        let mut known = vars.dup();
        let mut i: usize = 0;
        while i < bounds.len()
            invariant
                i <= bounds.len(),
                args_fit(bounds@, args.deep_view()),
                introduced.len() == bounds.len(),
                known.deep_view() == known_vars(
                    vars.deep_view(),
                    introduced.deep_view(),
                    i as nat,
                ),
                self.deep_view() == with_where_bounds(
                    c0,
                    vars.deep_view(),
                    introduced.deep_view(),
                    bounds@,
                    args.deep_view(),
                    i as nat,
                ),
            decreases bounds.len() - i,
        {
            assert(args.deep_view().len() == args.len());
            assert(args.deep_view()[i as int] == args@[i as int].deep_view());
            let b = &bounds[i];
            if let Some(id) = find_var(&known, b.type_var.as_str()) {
                self.trait_state.where_bound_var_names.insert(id, b.type_var.clone());
                self.add_bound_traits(id, &b.traits, &args[i]);
            }
            assert(introduced.deep_view()[i as int] == introduced@[i as int].deep_view());
            let mut arrived = introduced[i].dup();
            append_values(&mut known, &mut arrived);
            i = i + 1;
        }
        known
    }
}

} // verus!
