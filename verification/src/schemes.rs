//! Type schemes and environments.

use vstd::prelude::*;
use crate::ast::{Kind, NodeId};
use crate::display::shown;
use crate::seqs::{add_new_contains, filter_contains};
use crate::sorting::{sort_texts, sorted_texts};
use crate::subst::{acyclic, applied, Substitution};
use crate::table::{at_key, distinct_keys, put, put_then_get, take_out_then_get, without, Table};
use crate::text::{concat, concat3, concat4, decimal, join_text, joined, number_text};
use crate::token::Span;
use crate::type_vars::{
    free_vars_in_type, replace_vars, replaced, replacing_absent_vars, vars_of, with_free,
};
use crate::types::{Ty, Type, group_type_models};
use crate::values::{push_value, Dup};

verus! {

/// `String::push` puts the character behind those that are there.
pub assume_specification[ std::string::String::push ](s: &mut std::string::String, c: char)
    ensures
        final(s)@ == old(s)@.push(c),
;

/// A polymorphic type: `forall [vars]. constraints => ty`, such as
/// `forall a. Show a => a -> String`.
#[derive(Debug)]
pub struct Scheme {
    pub forall: Vec<u32>,
    /// Trait constraints: trait name, variable, and the further arguments of the
    /// trait.
    pub constraints: Vec<(String, u32, Vec<Type>)>,
    pub ty: Type,
}

#[verifier::ext_equal]
pub struct SchemeModel {
    pub forall: Seq<u32>,
    pub constraints: Seq<(Seq<char>, u32, Seq<Ty>)>,
    pub ty: Ty,
}

impl DeepView for Scheme {
    type V = SchemeModel;

    open spec fn deep_view(&self) -> SchemeModel {
        SchemeModel {
            forall: self.forall.deep_view(),
            constraints: self.constraints.deep_view(),
            ty: self.ty.deep_view(),
        }
    }
}

impl Dup for Scheme {
    fn dup(&self) -> (r: Self) {
        Scheme {
            forall: self.forall.dup(),
            constraints: self.constraints.dup(),
            ty: self.ty.dup(),
        }
    }
}

/// A registered type alias. Its body speaks of the parameters by their
/// variables.
#[derive(Debug)]
pub struct TypeAliasInfo {
    /// The variables of the parameters, in order.
    pub param_vars: Vec<u32>,
    /// The kinds of the parameters, in order.
    pub param_kinds: Vec<Kind>,
    pub body: Type,
    /// Where the alias is declared.
    pub span: Span,
}

#[verifier::ext_equal]
pub struct AliasModel {
    pub param_vars: Seq<u32>,
    pub param_kinds: Seq<Kind>,
    pub body: Ty,
    pub span: Span,
}

impl DeepView for TypeAliasInfo {
    type V = AliasModel;

    open spec fn deep_view(&self) -> AliasModel {
        AliasModel {
            param_vars: self.param_vars.deep_view(),
            param_kinds: self.param_kinds.deep_view(),
            body: self.body.deep_view(),
            span: self.span.deep_view(),
        }
    }
}

impl Dup for TypeAliasInfo {
    fn dup(&self) -> (r: Self) {
        TypeAliasInfo {
            param_vars: self.param_vars.dup(),
            param_kinds: self.param_kinds.dup(),
            body: self.body.dup(),
            span: self.span.dup(),
        }
    }
}

/// The most variables that single letters can name.
pub const MAX_NAMED_VARS: usize = 159;

/// The name of the `i`-th variable: `a`, `b`, `c` and so on.
pub open spec fn var_name(i: int) -> Seq<char> {
    seq![(97 + i) as char]
}

/// The names of the variables of a scheme.
pub open spec fn var_names(forall_vars: Seq<u32>) -> Map<u32, Seq<char>>
    decreases forall_vars.len(),
{
    if forall_vars.len() == 0 {
        Map::empty()
    } else {
        var_names(forall_vars.drop_last()).insert(
            forall_vars.last(),
            var_name(forall_vars.len() - 1),
        )
    }
}

/// Variables replaced by names for them.
pub open spec fn as_names(names: Map<u32, Seq<char>>) -> Map<u32, Ty> {
    names.map_values(|n: Seq<char>| Ty::Con(n, Seq::empty()))
}

/// The type of a scheme, its variables named.
pub open spec fn display_ty(s: SchemeModel, ty: Ty) -> Ty {
    replaced(ty, as_names(var_names(s.forall)))
}

/// How a variable is shown.
pub open spec fn shown_var(names: Map<u32, Seq<char>>, id: u32) -> Seq<char> {
    if names.dom().contains(id) {
        names[id]
    } else {
        "?"@ + decimal(id as nat)
    }
}

/// How a further argument of a trait is shown.
pub open spec fn shown_extra(names: Map<u32, Seq<char>>, t: Ty) -> Seq<char> {
    match t {
        Ty::Var(id) => shown_var(names, id),
        _ => shown(replaced(t, as_names(names))),
    }
}

/// How the trait of a constraint is shown, with its further arguments.
pub open spec fn shown_trait(
    names: Map<u32, Seq<char>>,
    name: Seq<char>,
    extra: Seq<Ty>,
) -> Seq<char> {
    if extra.len() == 0 {
        name
    } else {
        name + " "@ + joined(extra.map_values(|t: Ty| shown_extra(names, t)), " "@)
    }
}

/// The traits of a variable with one more.
pub open spec fn with_bound(
    names: Map<u32, Seq<char>>,
    bounds: Seq<(Seq<char>, Seq<Seq<char>>)>,
    c: (Seq<char>, u32, Seq<Ty>),
) -> Seq<(Seq<char>, Seq<Seq<char>>)> {
    let var = shown_var(names, c.1);
    let traits = match at_key(bounds, var) {
        Some(traits) => traits,
        None => Seq::empty(),
    };
    put(bounds, var, traits.push(shown_trait(names, c.0, c.2)))
}

/// The traits of each variable, as they are shown.
pub open spec fn bounds_of(
    names: Map<u32, Seq<char>>,
    acc: Seq<(Seq<char>, Seq<Seq<char>>)>,
    items: Seq<(Seq<char>, u32, Seq<Ty>)>,
) -> Seq<(Seq<char>, Seq<Seq<char>>)>
    decreases items.len(),
{
    if items.len() == 0 {
        acc
    } else {
        with_bound(names, bounds_of(names, acc, items.drop_last()), items.last())
    }
}

pub open spec fn shown_bound(b: (Seq<char>, Seq<Seq<char>>)) -> Seq<char> {
    b.0 + ": "@ + joined(b.1, " + "@)
}

/// How a scheme is shown: its type, and its constraints grouped by variable in
/// the order of the text.
pub open spec fn shown_scheme(s: SchemeModel, ty: Ty) -> Seq<char> {
    let text = shown(display_ty(s, ty));
    if s.constraints.len() == 0 {
        text
    } else {
        let bounds = bounds_of(var_names(s.forall), Seq::empty(), s.constraints);
        text + " where {"@ + joined(
            sorted_texts(bounds.map_values(|b: (Seq<char>, Seq<Seq<char>>)| shown_bound(b))),
            ", "@,
        ) + "}"@
    }
}

proof fn no_names_change_nothing(t: Ty)
    ensures
        replaced(t, as_names(var_names(Seq::empty()))) == t,
{
    replacing_absent_vars(t, as_names(var_names(Seq::empty())));
}

/// The types that name variables.
fn name_types(names: &Table<u32, String>) -> (r: Table<u32, Type>)
    ensures
        r.deep_view() == as_names(names.deep_view()),
{
    broadcast use group_type_models;

    let ghost all = names.order();
    let n = names.len();
    let mut out: Table<u32, Type> = Table::new();
    let mut i: usize = 0;
    assert(as_names(crate::table::map_of(all.take(0))) =~= Map::empty());
    while i < n
        invariant
            i <= n,
            n == all.len(),
            all == names.order(),
            out.deep_view() == as_names(crate::table::map_of(all.take(i as int))),
        decreases n - i,
    {
        let args: Vec<Type> = Vec::new();
        let t = Type::Con(names.value(i).clone(), args);
        proof {
            assert(args.deep_view() =~= Seq::empty());
            assert(all.take(i + 1).drop_last() =~= all.take(i as int));
            assert(all.take(i + 1).last() == all[i as int]);
            let m = crate::table::map_of(all.take(i as int));
            crate::types::con_model(t->Con_0, t->Con_1);
            assert(t@ == Ty::Con(all[i as int].1, Seq::empty()));
            assert(as_names(m.insert(all[i as int].0, all[i as int].1)) =~= as_names(m).insert(
                all[i as int].0,
                t@,
            ));
        }
        out.insert(*names.key(i), t);
        i = i + 1;
    }
    assert(all.take(i as int) =~= all);
    out
}

fn show_var(names: &Table<u32, String>, id: u32) -> (r: String)
    ensures
        r@ == shown_var(names.deep_view(), id),
{
    match names.get(&id) {
        Some(n) => n.clone(),
        None => {
            let number = number_text(id as u64);
            concat("?", number.as_str())
        },
    }
}

fn show_extra(names: &Table<u32, String>, types: &Table<u32, Type>, t: &Type) -> (r: String)
    requires
        types.deep_view() == as_names(names.deep_view()),
    ensures
        r@ == shown_extra(names.deep_view(), t@),
{
    match t {
        Type::Var(id) => show_var(names, *id),
        _ => replace_vars(t, types).display(),
    }
}

fn show_trait(
    names: &Table<u32, String>,
    types: &Table<u32, Type>,
    name: &String,
    extra: &Vec<Type>,
) -> (r: String)
    requires
        types.deep_view() == as_names(names.deep_view()),
    ensures
        r@ == shown_trait(names.deep_view(), name@, extra.deep_view()),
{
    assert(extra.deep_view().len() == extra.len());
    if extra.len() == 0 {
        return name.clone();
    }
    let mut parts: Vec<String> = Vec::new();
    let mut i: usize = 0;
    while i < extra.len()
        invariant
            i <= extra.len(),
            parts.len() == i,
            types.deep_view() == as_names(names.deep_view()),
            forall|j: int|
                0 <= j < i ==> #[trigger] parts.deep_view()[j] == shown_extra(
                    names.deep_view(),
                    extra.deep_view()[j],
                ),
        decreases extra.len() - i,
    {
        push_value(&mut parts, show_extra(names, types, &extra[i]));
        i = i + 1;
    }
    assert(parts.deep_view() =~= extra.deep_view().map_values(
        |t: Ty| shown_extra(names.deep_view(), t),
    ));
    let text = join_text(&parts, " ");
    concat3(name.as_str(), " ", text.as_str())
}

fn add_bounds(
    names: &Table<u32, String>,
    types: &Table<u32, Type>,
    acc: &mut Table<String, Vec<String>>,
    items: &Vec<(String, u32, Vec<Type>)>,
)
    requires
        types.deep_view() == as_names(names.deep_view()),
    ensures
        final(acc).order() == bounds_of(names.deep_view(), old(acc).order(), items.deep_view()),
{
    let ghost a0 = acc.order();
    let ghost all = items.deep_view();
    let mut i: usize = 0;
    assert(all.take(0) =~= Seq::empty());
    while i < items.len()
        invariant
            i <= items.len(),
            all == items.deep_view(),
            acc.order() == bounds_of(names.deep_view(), a0, all.take(i as int)),
            types.deep_view() == as_names(names.deep_view()),
        decreases items.len() - i,
    {
        proof {
            assert(all.take(i + 1).drop_last() =~= all.take(i as int));
            assert(all.take(i + 1).last() == all[i as int]);
        }
        let c = &items[i];
        let var = show_var(names, c.1);
        let shown = show_trait(names, types, &c.0, &c.2);
        let mut traits: Vec<String> = match acc.get(&var) {
            Some(traits) => traits.dup(),
            None => Vec::new(),
        };
        assert(traits.deep_view() =~= match at_key(acc.order(), var@) {
            Some(traits) => traits,
            None => Seq::empty(),
        });
        push_value(&mut traits, shown);
        acc.insert(var, traits);
        i = i + 1;
    }
    assert(all.take(i as int) =~= all);
}

impl Scheme {
    /// Names for the variables, in order: `a`, `b`, `c` and so on.
    fn var_names(&self) -> (r: Table<u32, String>)
        requires
            self.forall.len() <= MAX_NAMED_VARS,
        ensures
            r.deep_view() == var_names(self.deep_view().forall),
    {
        let ghost all = self.deep_view().forall;
        let mut names: Table<u32, String> = Table::new();
        let mut i: usize = 0;
        assert(all =~= self.forall@);
        assert(all.take(0) =~= Seq::empty());
        while i < self.forall.len()
            invariant
                i <= self.forall.len(),
                self.forall.len() <= MAX_NAMED_VARS,
                all == self.forall@,
                names.deep_view() == var_names(all.take(i as int)),
            decreases self.forall.len() - i,
        {
            let mut name = String::new();
            let letter: u8 = 97 + i as u8;
            name.push(letter as char);
            proof {
                assert(name@ =~= var_name(i as int));
                assert(all.take(i + 1).drop_last() =~= all.take(i as int));
                assert(all.take(i + 1).last() == all[i as int]);
            }
            names.insert(self.forall[i], name);
            i = i + 1;
        }
        assert(all.take(i as int) =~= all);
        names
    }

    /// The type with solved variables applied and its own variables named.
    pub fn display_type(&self, sub: &Substitution) -> (r: Type)
        requires
            acyclic(sub@),
            self.forall.len() <= MAX_NAMED_VARS,
        ensures
            r@ == display_ty(self.deep_view(), applied(sub@, self.deep_view().ty)),
    {
        let resolved = sub.apply(&self.ty);
        if self.forall.len() == 0 {
            proof {
                assert(self.deep_view().forall =~= Seq::empty());
                no_names_change_nothing(resolved@);
            }
            return resolved;
        }
        let names = self.var_names();
        replace_vars(&resolved, &name_types(&names))
    }

    /// The type with its constraints, such as `a -> Unit where {a: Show}`.
    pub fn display_with_constraints(&self, sub: &Substitution) -> (r: String)
        requires
            acyclic(sub@),
            self.forall.len() <= MAX_NAMED_VARS,
        ensures
            r@ == shown_scheme(self.deep_view(), applied(sub@, self.deep_view().ty)),
    {
        let ty = self.display_type(sub).display();
        assert(self.constraints.deep_view().len() == self.constraints.len());
        if self.constraints.len() == 0 {
            return ty;
        }
        let names = self.var_names();
        let types = name_types(&names);
        let mut bounds: Table<String, Vec<String>> = Table::new();
        add_bounds(&names, &types, &mut bounds, &self.constraints);
        let ghost all = bounds.order();
        let n = bounds.len();
        let mut parts: Vec<String> = Vec::new();
        let mut i: usize = 0;
        while i < n
            invariant
                i <= n,
                n == all.len(),
                all == bounds.order(),
                parts.len() == i,
                forall|j: int|
                    0 <= j < i ==> #[trigger] parts.deep_view()[j] == shown_bound(all[j]),
            decreases n - i,
        {
            let traits = join_text(bounds.value(i), " + ");
            push_value(&mut parts, concat3(bounds.key(i).as_str(), ": ", traits.as_str()));
            i = i + 1;
        }
        assert(parts.deep_view() =~= all.map_values(
            |b: (Seq<char>, Seq<Seq<char>>)| shown_bound(b),
        ));
        let listed = join_text(&sort_texts(&parts), ", ");
        concat4(ty.as_str(), " where {", listed.as_str(), "}")
    }
}

/// Maps variable names to their type schemes.
pub struct TypeEnv {
    bindings: Table<String, Scheme>,
    /// Where each binding is defined.
    def_ids: Table<String, NodeId>,
}

/// What an environment holds.
#[verifier::ext_equal]
pub struct EnvModel {
    pub bindings: Seq<(Seq<char>, SchemeModel)>,
    pub def_ids: Seq<(Seq<char>, NodeId)>,
}

impl View for TypeEnv {
    type V = EnvModel;

    closed spec fn view(&self) -> EnvModel {
        EnvModel { bindings: self.bindings.order(), def_ids: self.def_ids.order() }
    }
}

impl DeepView for TypeEnv {
    type V = EnvModel;

    open spec fn deep_view(&self) -> EnvModel {
        self@
    }
}

impl Dup for TypeEnv {
    fn dup(&self) -> (r: Self) {
        TypeEnv { bindings: self.bindings.dup(), def_ids: self.def_ids.dup() }
    }
}

/// `out`, then the variables of a binding that are not bound by its scheme.
pub open spec fn with_scheme_vars(
    sub: crate::subst::Sub,
    out: Seq<u32>,
    b: (Seq<char>, SchemeModel),
) -> Seq<u32> {
    with_free(b.1.forall, out, vars_of(applied(sub, b.1.ty)))
}

/// The variables that are free in some bindings.
pub open spec fn env_vars(
    sub: crate::subst::Sub,
    acc: Seq<u32>,
    items: Seq<(Seq<char>, SchemeModel)>,
) -> Seq<u32>
    decreases items.len(),
{
    if items.len() == 0 {
        acc
    } else {
        with_scheme_vars(sub, env_vars(sub, acc, items.drop_last()), items.last())
    }
}

/// The environment with a name bound.
pub open spec fn env_with(e: EnvModel, name: Seq<char>, scheme: SchemeModel) -> EnvModel {
    EnvModel { bindings: put(e.bindings, name, scheme), ..e }
}

/// The environment with a name bound that is defined at a place.
pub open spec fn env_with_def(
    e: EnvModel,
    name: Seq<char>,
    scheme: SchemeModel,
    def_id: NodeId,
) -> EnvModel {
    EnvModel { bindings: put(e.bindings, name, scheme), def_ids: put(e.def_ids, name, def_id) }
}

/// The environment with a binding taken out.
pub open spec fn env_without(e: EnvModel, name: Seq<char>) -> EnvModel {
    EnvModel { bindings: without(e.bindings, name), ..e }
}

/// No name is bound twice, and none has two places.
pub open spec fn names_once(e: EnvModel) -> bool {
    distinct_keys(e.bindings) && distinct_keys(e.def_ids)
}

impl TypeEnv {
    pub fn new() -> (r: Self)
        ensures
            r@ == (EnvModel { bindings: Seq::empty(), def_ids: Seq::empty() }),
            names_once(r@),
    {
        TypeEnv { bindings: Table::new(), def_ids: Table::new() }
    }

    pub fn insert(&mut self, name: String, scheme: Scheme)
        ensures
            final(self)@ == env_with(old(self)@, name@, scheme.deep_view()),
            at_key(final(self)@.bindings, name@) == Some(scheme.deep_view()),
            forall|other: Seq<char>|
                other != name@ ==> #[trigger] at_key(final(self)@.bindings, other) == at_key(
                    old(self)@.bindings,
                    other,
                ),
            names_once(old(self)@),
            names_once(final(self)@),
    {
        proof {
            use_type_invariant(&self.bindings);
            use_type_invariant(&self.def_ids);
            put_then_get(self@.bindings, name@, scheme.deep_view(), name@);
            assert forall|other: Seq<char>| other != name@ implies #[trigger] at_key(
                put(self@.bindings, name@, scheme.deep_view()),
                other,
            ) == at_key(self@.bindings, other) by {
                put_then_get(self@.bindings, name@, scheme.deep_view(), other);
            }
        }
        self.bindings.insert(name, scheme);
    }

    /// Binds a name and keeps where it is defined.
    pub fn insert_with_def(&mut self, name: String, scheme: Scheme, def_id: NodeId)
        ensures
            final(self)@ == env_with_def(old(self)@, name@, scheme.deep_view(), def_id),
            at_key(final(self)@.bindings, name@) == Some(scheme.deep_view()),
            at_key(final(self)@.def_ids, name@) == Some(def_id),
            forall|other: Seq<char>|
                other != name@ ==> #[trigger] at_key(final(self)@.bindings, other) == at_key(
                    old(self)@.bindings,
                    other,
                ),
            forall|other: Seq<char>|
                other != name@ ==> #[trigger] at_key(final(self)@.def_ids, other) == at_key(
                    old(self)@.def_ids,
                    other,
                ),
            names_once(old(self)@),
            names_once(final(self)@),
    {
        proof {
            use_type_invariant(&self.bindings);
            use_type_invariant(&self.def_ids);
            put_then_get(self@.bindings, name@, scheme.deep_view(), name@);
            put_then_get(self@.def_ids, name@, def_id, name@);
            assert forall|other: Seq<char>| other != name@ implies #[trigger] at_key(
                put(self@.bindings, name@, scheme.deep_view()),
                other,
            ) == at_key(self@.bindings, other) by {
                put_then_get(self@.bindings, name@, scheme.deep_view(), other);
            }
            assert forall|other: Seq<char>| other != name@ implies #[trigger] at_key(
                put(self@.def_ids, name@, def_id),
                other,
            ) == at_key(self@.def_ids, other) by {
                put_then_get(self@.def_ids, name@, def_id, other);
            }
        }
        self.bindings.insert(name.clone(), scheme);
        self.def_ids.insert(name, def_id);
    }

    pub fn get(&self, name: &str) -> (r: Option<&Scheme>)
        ensures
            r.deep_view() == at_key(self@.bindings, name@),
    {
        self.bindings.named(name)
    }

    /// Where a name is defined.
    pub fn def_id(&self, name: &str) -> (r: Option<NodeId>)
        ensures
            r == at_key(self@.def_ids, name@),
    {
        match self.def_ids.named(name) {
            Some(id) => Some(*id),
            None => None,
        }
    }

    /// Takes a binding out. Where it is defined stays known.
    pub fn remove(&mut self, name: &str)
        ensures
            final(self)@ == env_without(old(self)@, name@),
            at_key(final(self)@.bindings, name@) is None,
            forall|other: Seq<char>|
                other != name@ ==> #[trigger] at_key(final(self)@.bindings, other) == at_key(
                    old(self)@.bindings,
                    other,
                ),
            names_once(old(self)@),
            names_once(final(self)@),
    {
        proof {
            use_type_invariant(&self.bindings);
            use_type_invariant(&self.def_ids);
            take_out_then_get(self@.bindings, name@, name@);
            assert forall|other: Seq<char>| other != name@ implies #[trigger] at_key(
                without(self@.bindings, name@),
                other,
            ) == at_key(self@.bindings, other) by {
                take_out_then_get(self@.bindings, name@, other);
            }
        }
        let key = name.to_owned();
        self.bindings.remove(&key);
    }

    /// All bindings.
    pub fn iter(&self) -> (r: Vec<(String, Scheme)>)
        ensures
            r.deep_view() == self@.bindings,
    {
        table_entries(&self.bindings)
    }

    /// All names with the places where they are defined.
    pub fn all_def_ids(&self) -> (r: Vec<(String, NodeId)>)
        ensures
            r.deep_view() == self@.def_ids,
    {
        table_entries(&self.def_ids)
    }

    /// The type variables that are free in the environment.
    pub fn free_vars(&self, sub: &Substitution) -> (r: Vec<u32>)
        requires
            acyclic(sub@),
        ensures
            r@ == env_vars(sub@, Seq::empty(), self@.bindings),
    {
        let ghost all = self@.bindings;
        let n = self.bindings.len();
        let mut vars: Vec<u32> = Vec::new();
        let mut i: usize = 0;
        assert(all.take(0) =~= Seq::empty());
        while i < n
            invariant
                i <= n,
                n == all.len(),
                all == self.bindings.order(),
                acyclic(sub@),
                vars@ == env_vars(sub@, Seq::empty(), all.take(i as int)),
            decreases n - i,
        {
            proof {
                assert(all.take(i + 1).drop_last() =~= all.take(i as int));
                assert(all.take(i + 1).last() == all[i as int]);
            }
            let scheme = self.bindings.value(i);
            assert(scheme.deep_view().forall =~= scheme.forall@);
            free_vars_in_type(&sub.apply(&scheme.ty), &scheme.forall, &mut vars);
            i = i + 1;
        }
        assert(all.take(i as int) =~= all);
        vars
    }
}

/// A copy of the entries of a table.
pub fn table_entries<V: Dup>(t: &Table<String, V>) -> (r: Vec<(String, V)>)
    ensures
        r.deep_view() == t.order(),
{
    let ghost all = t.order();
    let n = t.len();
    let mut out: Vec<(String, V)> = Vec::new();
    let mut i: usize = 0;
    assert(out.deep_view() =~= all.take(0));
    while i < n
        invariant
            i <= n,
            n == all.len(),
            all == t.order(),
            out.deep_view() == all.take(i as int),
        decreases n - i,
    {
        let entry = (t.key(i).clone(), t.value(i).dup());
        assert(entry.deep_view() == all[i as int]);
        assert(all.take(i + 1) =~= all.take(i as int).push(all[i as int]));
        push_value(&mut out, entry);
        i = i + 1;
    }
    assert(all.take(i as int) =~= all);
    out
}

/// What was bound last is what a name stands for, and other names stand for what
/// they stood for.
pub proof fn binding_is_found(
    e: EnvModel,
    name: Seq<char>,
    scheme: SchemeModel,
    def_id: NodeId,
    other: Seq<char>,
)
    requires
        names_once(e),
    ensures
        at_key(env_with(e, name, scheme).bindings, name) == Some(scheme),
        at_key(env_with_def(e, name, scheme, def_id).bindings, name) == Some(scheme),
        at_key(env_with_def(e, name, scheme, def_id).def_ids, name) == Some(def_id),
        other != name ==> {
            &&& at_key(env_with(e, name, scheme).bindings, other) == at_key(e.bindings, other)
            &&& at_key(env_with_def(e, name, scheme, def_id).bindings, other) == at_key(
                e.bindings,
                other,
            )
            &&& at_key(env_with_def(e, name, scheme, def_id).def_ids, other) == at_key(
                e.def_ids,
                other,
            )
        },
{
    put_then_get(e.bindings, name, scheme, other);
    put_then_get(e.def_ids, name, def_id, other);
}

/// A name whose binding was taken out stands for nothing, yet where it was defined
/// stays known. Of other names, both are as they were.
pub proof fn removed_names_keep_their_place(
    e: EnvModel,
    name: Seq<char>,
    scheme: SchemeModel,
    def_id: NodeId,
    other: Seq<char>,
)
    requires
        names_once(e),
    ensures
        ({
            let after = env_without(env_with_def(e, name, scheme, def_id), name);
            &&& at_key(after.bindings, name) is None
            &&& at_key(after.def_ids, name) == Some(def_id)
            &&& other != name ==> at_key(after.bindings, other) == at_key(e.bindings, other)
                && at_key(after.def_ids, other) == at_key(e.def_ids, other)
        }),
{
    put_then_get(e.bindings, name, scheme, other);
    put_then_get(e.def_ids, name, def_id, other);
    take_out_then_get(put(e.bindings, name, scheme), name, other);
}

/// The variables that are free in some bindings are just those of the types of the
/// bindings, solved ones applied, that the schemes do not quantify.
pub proof fn free_variables_are_not_quantified(
    sub: crate::subst::Sub,
    acc: Seq<u32>,
    items: Seq<(Seq<char>, SchemeModel)>,
    id: u32,
)
    ensures
        env_vars(sub, acc, items).contains(id) <==> acc.contains(id) || exists|i: int|
            0 <= i < items.len() && vars_of(applied(sub, (#[trigger] items[i]).1.ty)).contains(id)
                && !items[i].1.forall.contains(id),
    decreases items.len(),
{
    if items.len() > 0 {
        let init = items.drop_last();
        let last = items.last();
        let before = env_vars(sub, acc, init);
        free_variables_are_not_quantified(sub, acc, init, id);
        assert(items[items.len() - 1] == last);
        assert(forall|i: int| 0 <= i < init.len() ==> #[trigger] init[i] == items[i]);
        assert(forall|i: int| 0 <= i < init.len() ==> #[trigger] items[i] == init[i]);
        let vars = vars_of(applied(sub, last.1.ty));
        let keep = |v: u32| !last.1.forall.contains(v);
        filter_contains(vars, keep, id);
        add_new_contains(before, vars.filter(keep), id);
    }
}

} // verus!
