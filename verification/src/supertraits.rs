//! Supertraits: which traits follow from a trait, and what impls need besides.

use vstd::prelude::*;
use crate::checker::{Checker, CheckerModel};
use crate::diagnostics::{an_error, an_error_at, Diag, Diagnostic};
use crate::exports::add_names;
use crate::infos::{ImplModel, TraitModel};
use crate::names::{canonical_type_name, canonicalize_type_name};
use crate::reachability::{
    edge, path_leaves, reaches, reaches_edge, reaches_self, reaches_through, Adjacency,
};
use crate::seqs::{add_new_contains, add_new_distinct, add_new_extends};
use crate::subst::{acyclic, applied};
use crate::table::{at_key, has_key};
use crate::text::{
    concat5, decimal, decimal_has_no_dot, dotted, dotted_splits, is_decimal, is_number,
    last_segment, split_last_dot, split_makes_up, text_eq,
};
use crate::token::Span;
use crate::traits::trait_named;
use crate::types::{Ty, Type, group_type_models};
use crate::values::outcome;

verus! {

/// Each trait with its supertraits.
pub open spec fn supers_of(traits: Seq<(Seq<char>, TraitModel)>) -> Adjacency {
    Map::new(
        |k: Seq<char>| has_key(traits, k),
        |k: Seq<char>| (at_key(traits, k)->0).supertraits,
    )
}

/// The canonical name of a trait, or the name itself where it is not known.
pub open spec fn trait_or_self(c: CheckerModel, name: Seq<char>) -> Seq<char> {
    match trait_named(c, name) {
        Some(canonical) => canonical,
        None => name,
    }
}

/// Whether a type that has a trait has another one too: the same trait, or a
/// supertrait of it, or one of theirs.
pub open spec fn implies_trait(c: CheckerModel, bound: Seq<char>, required: Seq<char>) -> bool {
    reaches(
        supers_of(c.trait_state.traits),
        trait_or_self(c, bound),
        trait_or_self(c, required),
    )
}

/// All names that stand as supertraits.
pub open spec fn all_supers(traits: Seq<(Seq<char>, TraitModel)>) -> Seq<Seq<char>>
    decreases traits.len(),
{
    if traits.len() == 0 {
        Seq::empty()
    } else {
        all_supers(traits.drop_last()) + traits.last().1.supertraits
    }
}

proof fn supers_are_listed(traits: Seq<(Seq<char>, TraitModel)>, i: int, x: Seq<char>)
    requires
        0 <= i < traits.len(),
        traits[i].1.supertraits.contains(x),
    ensures
        all_supers(traits).contains(x),
    decreases traits.len(),
{
    let before = all_supers(traits.drop_last());
    let own = traits.last().1.supertraits;
    if i == traits.len() - 1 {
        let k = choose|k: int| 0 <= k < own.len() && own[k] == x;
        assert((before + own)[before.len() + k] == x);
    } else {
        supers_are_listed(traits.drop_last(), i, x);
        let k = choose|k: int| 0 <= k < before.len() && before[k] == x;
        assert((before + own)[k] == x);
    }
}

proof fn distinct_within(names: Seq<Seq<char>>, all: Set<Seq<char>>)
    requires
        names.no_duplicates(),
        all.finite(),
        forall|i: int| 0 <= i < names.len() ==> all.contains(#[trigger] names[i]),
    ensures
        names.len() <= all.len(),
{
    names.unique_seq_to_set();
    assert forall|x: Seq<char>| names.to_set().contains(x) implies all.contains(x) by {
        let i = choose|i: int| 0 <= i < names.len() && names[i] == x;
    }
    vstd::set_lib::lemma_len_subset(names.to_set(), all);
}

impl Checker {
    /// Whether a trait is another one, or has it among its supertraits or theirs.
    /// Both go by their canonical names.
    pub fn trait_implies_canonical(&self, bound_trait: &str, required_trait: &str) -> (r: bool)
        ensures
            r == reaches(
                supers_of(self.deep_view().trait_state.traits),
                bound_trait@,
                required_trait@,
            ),
    {
        let ghost order = self.deep_view().trait_state.traits;
        let ghost g = supers_of(order);
        let ghost bound = bound_trait@;
        let ghost required = required_trait@;
        let ghost listed = seq![bound] + all_supers(order);
        let ghost universe = listed.to_set();
        let mut found: Vec<String> = Vec::new();
        crate::values::push_value(&mut found, bound_trait.to_owned());
        proof {
            assert(found.deep_view() =~= seq![bound]);
            reaches_self(g, bound);
            assert(listed[0] == bound);
            vstd::seq_lib::seq_to_set_is_finite(listed);
            distinct_within(found.deep_view(), universe);
        }
        let mut i: usize = 0;
        while i < found.len()
            invariant
                i <= found.len(),
                order == self.deep_view().trait_state.traits,
                g == supers_of(order),
                bound == bound_trait@,
                required == required_trait@,
                listed == seq![bound] + all_supers(order),
                universe == listed.to_set(),
                universe.finite(),
                found.deep_view().no_duplicates(),
                found.deep_view().contains(bound),
                found.len() <= universe.len(),
                forall|j: int|
                    0 <= j < found.len() ==> universe.contains(#[trigger] found.deep_view()[j])
                        && reaches(g, bound, found.deep_view()[j]),
                forall|j: int| 0 <= j < i ==> #[trigger] found.deep_view()[j] != required,
                forall|j: int, y: Seq<char>|
                    0 <= j < i && #[trigger] edge(g, #[trigger] found.deep_view()[j], y)
                        ==> found.deep_view().contains(y),
            decreases universe.len() - i,
        {
            let ghost before = found.deep_view();
            let ghost x = before[i as int];
            if text_eq(found[i].as_str(), required_trait) {
                assert(reaches(g, bound, before[i as int]));
                return true;
            }
            let name = found[i].clone();
            if let Some(info) = self.trait_state.traits.get(&name) {
                let ghost supers = info.supertraits.deep_view();
                add_names(&mut found, &info.supertraits);
                proof {
                    let after = found.deep_view();
                    assert(g.dom().contains(x) && g[x] == supers);
                    add_new_extends(before, supers);
                    add_new_distinct(before, supers);
                    assert forall|j: int| 0 <= j < after.len() implies universe.contains(
                        #[trigger] after[j],
                    ) && reaches(g, bound, after[j]) by {
                        add_new_contains(before, supers, after[j]);
                        assert(after.contains(after[j]));
                        if before.contains(after[j]) {
                            let k = choose|k: int| 0 <= k < before.len() && before[k] == after[j];
                            assert(reaches(g, bound, before[k]));
                        } else {
                            assert(supers.contains(after[j]));
                            assert(edge(g, x, after[j]));
                            reaches_edge(g, x, after[j]);
                            reaches_through(g, bound, x, after[j]);
                            let at = crate::table::key_index(order, x);
                            supers_are_listed(order, at, after[j]);
                            let all = all_supers(order);
                            let k = choose|k: int| 0 <= k < all.len() && all[k] == after[j];
                            assert(listed[k + 1] == after[j]);
                        }
                    }
                    distinct_within(after, universe);
                    assert forall|j: int, y: Seq<char>|
                        0 <= j < i + 1 && #[trigger] edge(
                            g,
                            #[trigger] after[j],
                            y,
                        ) implies after.contains(y) by {
                        assert(after[j] == before[j]);
                        add_new_contains(before, supers, y);
                    }
                    add_new_contains(before, supers, bound);
                    assert forall|j: int| 0 <= j < i + 1 implies #[trigger] after[j]
                        != required by {
                        assert(after[j] == before[j]);
                    }
                }
            } else {
                assert(!g.dom().contains(x));
            }
            i = i + 1;
        }
        proof {
            if reaches(g, bound, required) {
                let within = found.deep_view().to_set();
                if !within.contains(required) {
                    let step = path_leaves(g, within, bound, required);
                    let j = choose|j: int|
                        0 <= j < found.deep_view().len() && found.deep_view()[j] == step.0;
                    assert(edge(g, found.deep_view()[j], step.1));
                }
            }
        }
        false
    }

    fn trait_or_name(&self, name: &str) -> (r: String)
        ensures
            r@ == trait_or_self(self.deep_view(), name@),
    {
        match self.resolve_trait_name(name) {
            Some(canonical) => canonical,
            None => name.to_owned(),
        }
    }

    /// Whether a type that has a trait has another one too.
    pub fn trait_implies(&self, bound_trait: &str, required_trait: &str) -> (r: bool)
        ensures
            r == implies_trait(self.deep_view(), bound_trait@, required_trait@),
    {
        let bound = self.trait_or_name(bound_trait);
        let required = self.trait_or_name(required_trait);
        self.trait_implies_canonical(bound.as_str(), required.as_str())
    }
}

/// The first trait of some that another one follows from.
pub open spec fn covering(c: CheckerModel, bounds: Seq<Seq<char>>, required: Seq<char>) -> Option<
    Seq<char>,
>
    decreases bounds.len(),
{
    if bounds.len() == 0 {
        None
    } else {
        match covering(c, bounds.drop_last(), required) {
            Some(name) => Some(name),
            None => if implies_trait(c, bounds.last(), required) {
                Some(bounds.last())
            } else {
                None
            },
        }
    }
}

proof fn covering_stays(c: CheckerModel, bounds: Seq<Seq<char>>, required: Seq<char>, n: int)
    requires
        0 <= n <= bounds.len(),
        covering(c, bounds.take(n), required) is Some,
    ensures
        covering(c, bounds, required) == covering(c, bounds.take(n), required),
    decreases bounds.len(),
{
    if n < bounds.len() {
        assert(bounds.drop_last().take(n) =~= bounds.take(n));
        covering_stays(c, bounds.drop_last(), required, n);
    } else {
        assert(bounds.take(n) =~= bounds);
    }
}

/// The name of a bound variable that has a trait, by what the variable stands for:
/// the first such bound that has a name.
pub open spec fn bound_var_name(
    c: CheckerModel,
    trait_name: Seq<char>,
    id: u32,
    bounds: Seq<(u32, Seq<Seq<char>>)>,
) -> Option<Seq<char>>
    decreases bounds.len(),
{
    if bounds.len() == 0 {
        None
    } else {
        match bound_var_name(c, trait_name, id, bounds.drop_last()) {
            Some(name) => Some(name),
            None => if covering(c, bounds.last().1, trait_name) is Some && applied(
                c.sub,
                Ty::Var(bounds.last().0),
            ) == Ty::Var(id) {
                at_key(c.trait_state.where_bound_var_names, bounds.last().0)
            } else {
                None
            },
        }
    }
}

proof fn bound_var_name_stays(
    c: CheckerModel,
    trait_name: Seq<char>,
    id: u32,
    bounds: Seq<(u32, Seq<Seq<char>>)>,
    n: int,
)
    requires
        0 <= n <= bounds.len(),
        bound_var_name(c, trait_name, id, bounds.take(n)) is Some,
    ensures
        bound_var_name(c, trait_name, id, bounds) == bound_var_name(
            c,
            trait_name,
            id,
            bounds.take(n),
        ),
    decreases bounds.len(),
{
    if n < bounds.len() {
        assert(bounds.drop_last().take(n) =~= bounds.take(n));
        bound_var_name_stays(c, trait_name, id, bounds.drop_last(), n);
    } else {
        assert(bounds.take(n) =~= bounds);
    }
}

/// The source name of a variable that has a trait.
pub open spec fn where_var_name(c: CheckerModel, trait_name: Seq<char>, id: u32) -> Option<
    Seq<char>,
> {
    match bound_var_name(c, trait_name, id, c.trait_state.where_bounds) {
        Some(name) => Some(name),
        None => at_key(c.trait_state.where_bound_var_names, id),
    }
}

impl Checker {
    /// The first trait of some that another one follows from.
    pub fn covering_trait(&self, bounds: &Vec<String>, required: &str) -> (r: Option<String>)
        ensures
            r.deep_view() == covering(self.deep_view(), bounds.deep_view(), required@),
    {
        let ghost all = bounds.deep_view();
        let ghost c = self.deep_view();
        let mut i: usize = 0;
        assert(all.take(0) =~= Seq::empty());
        while i < bounds.len()
            invariant
                i <= bounds.len(),
                all == bounds.deep_view(),
                c == self.deep_view(),
                covering(c, all.take(i as int), required@) is None,
            decreases bounds.len() - i,
        {
            proof {
                assert(all.take(i + 1).drop_last() =~= all.take(i as int));
                assert(all.take(i + 1).last() == all[i as int]);
            }
            if self.trait_implies(bounds[i].as_str(), required) {
                proof {
                    covering_stays(c, all, required@, i + 1);
                }
                return Some(bounds[i].clone());
            }
            i = i + 1;
        }
        assert(all.take(i as int) =~= all);
        None
    }

    /// The source name of a variable that has a trait.
    pub fn resolve_where_var_name(&self, trait_name: &str, resolved_id: u32) -> (r: Option<String>)
        requires
            acyclic(self.sub@),
        ensures
            r.deep_view() == where_var_name(self.deep_view(), trait_name@, resolved_id),
    {
        let ghost c = self.deep_view();
        let bounds = &self.trait_state.where_bounds;
        let names = &self.trait_state.where_bound_var_names;
        let ghost all = bounds.order();
        let n = bounds.len();
        let mut i: usize = 0;
        assert(all.take(0) =~= Seq::empty());
        while i < n
            invariant
                i <= n,
                n == all.len(),
                c == self.deep_view(),
                acyclic(self.sub@),
                all == bounds.order(),
                all == c.trait_state.where_bounds,
                names.order() == c.trait_state.where_bound_var_names,
                bound_var_name(c, trait_name@, resolved_id, all.take(i as int)) is None,
            decreases n - i,
        {
            broadcast use group_type_models;

            proof {
                assert(all.take(i + 1).drop_last() =~= all.take(i as int));
                assert(all.take(i + 1).last() == all[i as int]);
            }
            let id = *bounds.key(i);
            if self.covering_trait(bounds.value(i), trait_name).is_some() {
                if let Type::Var(other) = self.sub.apply(&Type::Var(id)) {
                    if other == resolved_id {
                        if let Some(name) = names.get(&id) {
                            proof {
                                bound_var_name_stays(c, trait_name@, resolved_id, all, i + 1);
                            }
                            return Some(name.clone());
                        }
                    }
                }
            }
            i = i + 1;
        }
        assert(all.take(i as int) =~= all);
        match names.get(&resolved_id) {
            Some(name) => Some(name.clone()),
            None => None,
        }
    }
}

/// The key of the tuples of an arity.
pub open spec fn tuple_of(n: nat) -> Seq<char> {
    dotted(canonical_type_name("Tuple"@), decimal(n))
}

/// Whether a target is the tuples of some arity.
pub open spec fn is_arity_tuple(target: Seq<char>) -> bool {
    exists|n: nat| target == #[trigger] tuple_of(n)
}

fn arity_tuple(target: &str) -> (r: bool)
    ensures
        r == is_arity_tuple(target@),
{
    let ghost bare = canonical_type_name("Tuple"@);
    proof {
        if is_arity_tuple(target@) {
            let n = choose|n: nat| target@ == #[trigger] tuple_of(n);
            decimal_has_no_dot(n);
            dotted_splits(bare, decimal(n));
            assert(is_decimal(last_segment(target@)));
        }
    }
    match split_last_dot(target) {
        Some((prefix, digits)) => {
            let r = text_eq(prefix.as_str(), canonicalize_type_name("Tuple")) && is_number(
                digits.as_str(),
            );
            proof {
                if r {
                    let n = choose|n: nat| digits@ == #[trigger] decimal(n);
                    split_makes_up(target@);
                    assert(target@ == tuple_of(n));
                }
            }
            r
        },
        None => false,
    }
}

/// Whether a supertrait is implemented for a target. The tuples of an arity may have
/// it from the tuples of every arity.
pub open spec fn super_is_implemented(c: CheckerModel, name: Seq<char>, target: Seq<char>) -> bool {
    let impls = c.trait_state.impls;
    has_key(impls, (name, Seq::<Seq<char>>::empty(), target)) || (is_arity_tuple(target)
        && has_key(
        impls,
        (name, Seq::<Seq<char>>::empty(), canonical_type_name("Tuple"@)),
    ))
}

pub open spec fn missing_super(
    trait_name: Seq<char>,
    target: Seq<char>,
    name: Seq<char>,
    span: Option<Span>,
) -> Diag {
    let message = "impl "@ + trait_name + " for "@ + target + " requires impl "@ + name + " for "@
        + target + " (supertrait)"@;
    match span {
        Some(span) => an_error_at(span, message),
        None => an_error(message),
    }
}

/// The first supertrait that an impl lacks.
pub open spec fn supers_checked(
    c: CheckerModel,
    trait_name: Seq<char>,
    target: Seq<char>,
    span: Option<Span>,
    supers: Seq<Seq<char>>,
) -> Option<Diag>
    decreases supers.len(),
{
    if supers.len() == 0 {
        None
    } else {
        match supers_checked(c, trait_name, target, span, supers.drop_last()) {
            Some(d) => Some(d),
            None => if super_is_implemented(c, supers.last(), target) {
                None
            } else {
                Some(missing_super(trait_name, target, supers.last(), span))
            },
        }
    }
}

proof fn supers_checked_stay(
    c: CheckerModel,
    trait_name: Seq<char>,
    target: Seq<char>,
    span: Option<Span>,
    supers: Seq<Seq<char>>,
    n: int,
)
    requires
        0 <= n <= supers.len(),
        supers_checked(c, trait_name, target, span, supers.take(n)) is Some,
    ensures
        supers_checked(c, trait_name, target, span, supers) == supers_checked(
            c,
            trait_name,
            target,
            span,
            supers.take(n),
        ),
    decreases supers.len(),
{
    if n < supers.len() {
        assert(supers.drop_last().take(n) =~= supers.take(n));
        supers_checked_stay(c, trait_name, target, span, supers.drop_last(), n);
    } else {
        assert(supers.take(n) =~= supers);
    }
}

/// The first complaint about the supertraits of some impls.
pub open spec fn impls_checked(
    c: CheckerModel,
    impls: Seq<((Seq<char>, Seq<Seq<char>>, Seq<char>), ImplModel)>,
) -> Option<Diag>
    decreases impls.len(),
{
    if impls.len() == 0 {
        None
    } else {
        match impls_checked(c, impls.drop_last()) {
            Some(d) => Some(d),
            None => {
                let key = impls.last().0;
                match at_key(c.trait_state.traits, key.0) {
                    Some(info) => supers_checked(
                        c,
                        key.0,
                        key.2,
                        impls.last().1.span,
                        info.supertraits,
                    ),
                    None => None,
                }
            },
        }
    }
}

proof fn impls_checked_stay(
    c: CheckerModel,
    impls: Seq<((Seq<char>, Seq<Seq<char>>, Seq<char>), ImplModel)>,
    n: int,
)
    requires
        0 <= n <= impls.len(),
        impls_checked(c, impls.take(n)) is Some,
    ensures
        impls_checked(c, impls) == impls_checked(c, impls.take(n)),
    decreases impls.len(),
{
    if n < impls.len() {
        assert(impls.drop_last().take(n) =~= impls.take(n));
        impls_checked_stay(c, impls.drop_last(), n);
    } else {
        assert(impls.take(n) =~= impls);
    }
}

impl Checker {
    fn has_super(&self, name: &str, target: &str) -> (r: bool)
        ensures
            r == super_is_implemented(self.deep_view(), name@, target@),
    {
        let none: Vec<String> = Vec::new();
        assert(none.deep_view() =~= Seq::empty());
        let key = (name.to_owned(), none, target.to_owned());
        if self.trait_state.impls.contains_key(&key) {
            return true;
        }
        if !arity_tuple(target) {
            return false;
        }
        let none: Vec<String> = Vec::new();
        assert(none.deep_view() =~= Seq::empty());
        let key = (name.to_owned(), none, canonicalize_type_name("Tuple").to_owned());
        self.trait_state.impls.contains_key(&key)
    }

    fn check_supers(
        &self,
        trait_name: &str,
        target: &str,
        span: Option<Span>,
        supers: &Vec<String>,
    ) -> (r: Option<Diagnostic>)
        ensures
            r.deep_view() == supers_checked(
                self.deep_view(),
                trait_name@,
                target@,
                span,
                supers.deep_view(),
            ),
    {
        let ghost c = self.deep_view();
        let ghost all = supers.deep_view();
        let mut i: usize = 0;
        assert(all.take(0) =~= Seq::empty());
        while i < supers.len()
            invariant
                i <= supers.len(),
                all == supers.deep_view(),
                c == self.deep_view(),
                supers_checked(c, trait_name@, target@, span, all.take(i as int)) is None,
            decreases supers.len() - i,
        {
            proof {
                assert(all.take(i + 1).drop_last() =~= all.take(i as int));
                assert(all.take(i + 1).last() == all[i as int]);
            }
            let name = supers[i].as_str();
            if !self.has_super(name, target) {
                let start = concat5("impl ", trait_name, " for ", target, " requires impl ");
                let message = concat5(start.as_str(), name, " for ", target, " (supertrait)");
                proof {
                    supers_checked_stay(c, trait_name@, target@, span, all, i + 1);
                }
                return Some(
                    match span {
                        Some(span) => Diagnostic::error_at(span, message),
                        None => Diagnostic::error(message),
                    },
                );
            }
            i = i + 1;
        }
        assert(all.take(i as int) =~= all);
        None
    }

    /// Checks that every impl has the impls of the supertraits of its trait beside
    /// it.
    pub fn check_supertrait_impls(&self) -> (r: Result<(), Diagnostic>)
        ensures
            outcome(r) == match impls_checked(
                self.deep_view(),
                self.deep_view().trait_state.impls,
            ) {
                Some(d) => Err(d),
                None => Ok(()),
            },
    {
        let ghost c = self.deep_view();
        let impls = &self.trait_state.impls;
        let ghost all = impls.order();
        let n = impls.len();
        let mut i: usize = 0;
        assert(all.take(0) =~= Seq::empty());
        while i < n
            invariant
                i <= n,
                n == all.len(),
                c == self.deep_view(),
                all == impls.order(),
                all == c.trait_state.impls,
                impls_checked(c, all.take(i as int)) is None,
            decreases n - i,
        {
            proof {
                assert(all.take(i + 1).drop_last() =~= all.take(i as int));
                assert(all.take(i + 1).last() == all[i as int]);
            }
            let key = impls.key(i);
            let info = impls.value(i);
            if let Some(t) = self.trait_state.traits.get(&key.0) {
                let complaint = self.check_supers(
                    key.0.as_str(),
                    key.2.as_str(),
                    info.span,
                    &t.supertraits,
                );
                if let Some(d) = complaint {
                    proof {
                        impls_checked_stay(c, all, i + 1);
                    }
                    return Err(d);
                }
            }
            i = i + 1;
        }
        assert(all.take(i as int) =~= all);
        Ok(())
    }
}

/// A trait follows from itself, and what follows from what follows from it does too.
pub proof fn implication_is_a_preorder(
    c: CheckerModel,
    a: Seq<char>,
    b: Seq<char>,
    d: Seq<char>,
)
    ensures
        implies_trait(c, a, a),
        implies_trait(c, a, b) && implies_trait(c, b, d) ==> implies_trait(c, a, d),
{
    let g = supers_of(c.trait_state.traits);
    reaches_self(g, trait_or_self(c, a));
    if implies_trait(c, a, b) && implies_trait(c, b, d) {
        reaches_through(g, trait_or_self(c, a), trait_or_self(c, b), trait_or_self(c, d));
    }
}

/// Whether an impl has the impls of the supertraits of its trait beside it.
pub open spec fn has_its_supertraits(
    c: CheckerModel,
    key: (Seq<char>, Seq<Seq<char>>, Seq<char>),
) -> bool {
    match at_key(c.trait_state.traits, key.0) {
        Some(info) => forall|k: int|
            0 <= k < info.supertraits.len() ==> super_is_implemented(
                c,
                #[trigger] info.supertraits[k],
                key.2,
            ),
        None => true,
    }
}

/// The check succeeds just where each impl has the impls of the supertraits of its
/// trait beside it.
pub proof fn supertraits_are_implemented(
    c: CheckerModel,
    impls: Seq<((Seq<char>, Seq<Seq<char>>, Seq<char>), ImplModel)>,
)
    ensures
        impls_checked(c, impls) is None <==> forall|i: int|
            0 <= i < impls.len() ==> has_its_supertraits(c, (#[trigger] impls[i]).0),
    decreases impls.len(),
{
    if impls.len() > 0 {
        let init = impls.drop_last();
        let key = impls.last().0;
        supertraits_are_implemented(c, init);
        if let Some(info) = at_key(c.trait_state.traits, key.0) {
            supers_are_implemented(c, key.0, key.2, impls.last().1.span, info.supertraits);
        }
        assert(impls[impls.len() - 1].0 == key);
        if forall|i: int| 0 <= i < impls.len() ==> has_its_supertraits(c, (#[trigger] impls[i]).0) {
            assert forall|i: int| 0 <= i < init.len() implies has_its_supertraits(
                c,
                (#[trigger] init[i]).0,
            ) by {
                assert(init[i] == impls[i]);
            }
        }
        if impls_checked(c, impls) is None {
            assert forall|i: int| 0 <= i < impls.len() implies has_its_supertraits(
                c,
                (#[trigger] impls[i]).0,
            ) by {
                if i < init.len() {
                    assert(init[i] == impls[i]);
                }
            }
        }
    }
}

proof fn supers_are_implemented(
    c: CheckerModel,
    trait_name: Seq<char>,
    target: Seq<char>,
    span: Option<Span>,
    supers: Seq<Seq<char>>,
)
    ensures
        supers_checked(c, trait_name, target, span, supers) is None <==> forall|k: int|
            0 <= k < supers.len() ==> super_is_implemented(c, #[trigger] supers[k], target),
    decreases supers.len(),
{
    if supers.len() > 0 {
        let init = supers.drop_last();
        supers_are_implemented(c, trait_name, target, span, init);
        assert(supers[supers.len() - 1] == supers.last());
        if forall|k: int|
            0 <= k < supers.len() ==> super_is_implemented(c, #[trigger] supers[k], target) {
            assert forall|k: int| 0 <= k < init.len() implies super_is_implemented(
                c,
                #[trigger] init[k],
                target,
            ) by {
                assert(init[k] == supers[k]);
            }
        }
        if supers_checked(c, trait_name, target, span, supers) is None {
            assert forall|k: int| 0 <= k < supers.len() implies super_is_implemented(
                c,
                #[trigger] supers[k],
                target,
            ) by {
                if k < init.len() {
                    assert(init[k] == supers[k]);
                }
            }
        }
    }
}

/// A trait has what its supertraits have: each supertrait follows from it, and so does all
/// that follows from the supertrait.
pub proof fn supertraits_follow(
    c: CheckerModel,
    name: Seq<char>,
    info: TraitModel,
    k: int,
    further: Seq<char>,
)
    requires
        at_key(c.trait_state.traits, name) == Some(info),
        0 <= k < info.supertraits.len(),
        has_key(c.trait_state.traits, info.supertraits[k]),
        implies_trait(c, info.supertraits[k], further),
    ensures
        implies_trait(c, name, info.supertraits[k]),
        implies_trait(c, name, further),
{
    let g = supers_of(c.trait_state.traits);
    assert(g[name].contains(info.supertraits[k]));
    reaches_edge(g, name, info.supertraits[k]);
    reaches_through(g, name, info.supertraits[k], trait_or_self(c, further));
}

/// A trait without supertraits implies no trait but itself.
pub proof fn traits_without_supertraits_imply_themselves(
    c: CheckerModel,
    name: Seq<char>,
    info: TraitModel,
    other: Seq<char>,
)
    requires
        at_key(c.trait_state.traits, name) == Some(info),
        info.supertraits.len() == 0,
    ensures
        implies_trait(c, name, other) <==> trait_or_self(c, other) == name,
{
    let g = supers_of(c.trait_state.traits);
    if trait_or_self(c, other) == name {
        reaches_self(g, name);
    } else if implies_trait(c, name, other) {
        let within = set![name];
        let step = path_leaves(g, within, name, trait_or_self(c, other));
        assert(edge(g, step.0, step.1));
        assert(step.0 == name);
    }
}

/// The source name of a bound variable is that of a bound on a variable that stands for
/// the same one and has the trait.
pub proof fn bound_names_are_those_of_bounds(
    c: CheckerModel,
    trait_name: Seq<char>,
    id: u32,
    bounds: Seq<(u32, Seq<Seq<char>>)>,
)
    ensures
        bound_var_name(c, trait_name, id, bounds) matches Some(name) ==> exists|i: int|
            0 <= i < bounds.len() && at_key(
                c.trait_state.where_bound_var_names,
                (#[trigger] bounds[i]).0,
            ) == Some(name) && applied(c.sub, Ty::Var(bounds[i].0)) == Ty::Var(id) && covering(
                c,
                bounds[i].1,
                trait_name,
            ) is Some,
    decreases bounds.len(),
{
    if bounds.len() > 0 {
        let init = bounds.drop_last();
        bound_names_are_those_of_bounds(c, trait_name, id, init);
        assert(bounds[bounds.len() - 1] == bounds.last());
        assert(forall|i: int| 0 <= i < init.len() ==> #[trigger] init[i] == bounds[i]);
    }
}

} // verus!
