//! Types as text.

use vstd::prelude::*;
use crate::text::{
    after_last_dot, concat, decimal, join_text, joined, last_segment, number_text, text_eq,
};
use crate::types::{EffectEntry, EffectRow, Entry, Row, Ty, Type, group_type_models};
use crate::values::push_value;

verus! {

broadcast use group_type_models;

/// How a type is written.
pub open spec fn shown(t: Ty) -> Seq<char>
    decreases t,
{
    match t {
        Ty::Var(id) => "?"@ + decimal(id as nat),
        Ty::Fun(a, b, row) => {
            let from = if *a is Fun {
                "("@ + shown(*a) + ")"@
            } else {
                shown(*a)
            };
            from + " -> "@ + shown(*b) + shown_needs(row)
        },
        Ty::Con(name, args) => {
            let bare = last_segment(name);
            if args.len() == 0 {
                bare
            } else if bare == "Tuple"@ && args.len() >= 2 {
                "("@ + joined(shown_each(args), ", "@) + ")"@
            } else {
                bare + joined(shown_arguments(args), Seq::empty())
            }
        },
        Ty::Record(fields) => "{ "@ + joined(shown_fields(fields), ", "@) + " }"@,
        Ty::Symbol(name) => "'"@ + name,
        Ty::Error => "<error>"@,
    }
}

/// A type application stands in brackets where it is an argument; a tuple has
/// its own.
pub open spec fn as_argument(t: Ty, text: Seq<char>) -> Seq<char> {
    match t {
        Ty::Con(name, args) => if args.len() > 0 && last_segment(name) != "Tuple"@ {
            "("@ + text + ")"@
        } else {
            text
        },
        _ => text,
    }
}

pub open spec fn shown_each(ts: Seq<Ty>) -> Seq<Seq<char>>
    decreases ts,
{
    Seq::new(
        ts.len(),
        |i: int|
            if 0 <= i < ts.len() {
                shown(ts[i])
            } else {
                Seq::empty()
            },
    )
}

/// The arguments of a named type, each behind a space.
pub open spec fn shown_arguments(ts: Seq<Ty>) -> Seq<Seq<char>>
    decreases ts,
{
    Seq::new(
        ts.len(),
        |i: int|
            if 0 <= i < ts.len() {
                " "@ + as_argument(ts[i], shown(ts[i]))
            } else {
                Seq::empty()
            },
    )
}

/// The arguments of an effect, each behind a space.
pub open spec fn shown_parameters(ts: Seq<Ty>) -> Seq<Seq<char>>
    decreases ts,
{
    Seq::new(
        ts.len(),
        |i: int|
            if 0 <= i < ts.len() {
                " "@ + shown(ts[i])
            } else {
                Seq::empty()
            },
    )
}

pub open spec fn shown_tails(ts: Seq<Ty>) -> Seq<Seq<char>>
    decreases ts,
{
    Seq::new(
        ts.len(),
        |i: int|
            if 0 <= i < ts.len() {
                ".."@ + shown(ts[i])
            } else {
                Seq::empty()
            },
    )
}

pub open spec fn shown_fields(fields: Seq<(Seq<char>, Ty)>) -> Seq<Seq<char>>
    decreases fields,
{
    Seq::new(
        fields.len(),
        |i: int|
            if 0 <= i < fields.len() {
                fields[i].0 + ": "@ + shown(fields[i].1)
            } else {
                Seq::empty()
            },
    )
}

pub open spec fn shown_effects(effects: Seq<Entry>) -> Seq<Seq<char>>
    decreases effects,
{
    Seq::new(
        effects.len(),
        |i: int|
            if 0 <= i < effects.len() {
                shown_entry(effects[i])
            } else {
                Seq::empty()
            },
    )
}

/// An effect with its arguments.
pub open spec fn shown_entry(e: Entry) -> Seq<char>
    decreases e,
{
    e.name + joined(shown_parameters(e.args), Seq::empty())
}

/// What a function type says of its effects: nothing where it has none.
pub open spec fn shown_needs(row: Row) -> Seq<char>
    decreases row,
{
    if row.effects.len() == 0 && row.tails.len() == 0 {
        Seq::empty()
    } else {
        " needs {"@ + joined(shown_effects(row.effects) + shown_tails(row.tails), ", "@) + "}"@
    }
}

fn show_type(t: &Type) -> (r: String)
    ensures
        r@ == shown(t@),
    decreases t,
{
    match t {
        Type::Var(id) => {
            let n = number_text(*id as u64);
            concat("?", n.as_str())
        },
        Type::Fun(a, b, row) => {
            let from = show_type(a);
            let mut r = match &**a {
                Type::Fun(_, _, _) => concat(concat("(", from.as_str()).as_str(), ")"),
                _ => from,
            };
            r.append(" -> ");
            r.append(show_type(b).as_str());
            r.append(show_needs(row).as_str());
            r
        },
        Type::Con(name, args) => {
            let bare = after_last_dot(name.as_str());
            assert(args.deep_view().len() == args.len());
            if args.len() == 0 {
                bare.to_owned()
            } else if text_eq(bare, "Tuple") && args.len() >= 2 {
                let parts = show_each(args);
                let mut r = concat("(", join_text(&parts, ", ").as_str());
                r.append(")");
                r
            } else {
                let parts = show_arguments(args);
                concat(bare, join_together(&parts).as_str())
            }
        },
        Type::Record(fields) => {
            let parts = show_fields(fields);
            let mut r = concat("{ ", join_text(&parts, ", ").as_str());
            r.append(" }");
            r
        },
        Type::Symbol(name) => concat("'", name.as_str()),
        Type::Error => "<error>".to_owned(),
    }
}

fn join_together(parts: &Vec<String>) -> (r: String)
    ensures
        r@ == joined(parts.deep_view(), Seq::empty()),
{
    proof {
        reveal_strlit("");
    }
    assert(""@ =~= Seq::<char>::empty());
    join_text(parts, "")
}

fn show_each(ts: &Vec<Type>) -> (r: Vec<String>)
    ensures
        r.deep_view() == shown_each(ts.deep_view()),
    decreases ts,
{
    let mut out: Vec<String> = Vec::new();
    let mut i: usize = 0;
    while i < ts.len()
        invariant
            i <= ts.len(),
            out.len() == i,
            forall|j: int| 0 <= j < i ==> #[trigger] out.deep_view()[j] == shown(ts.deep_view()[j]),
        decreases ts.len() - i,
    {
        push_value(&mut out, show_type(&ts[i]));
        i = i + 1;
    }
    assert(out.deep_view() =~= shown_each(ts.deep_view()));
    out
}

fn show_arguments(ts: &Vec<Type>) -> (r: Vec<String>)
    ensures
        r.deep_view() == shown_arguments(ts.deep_view()),
    decreases ts,
{
    let mut out: Vec<String> = Vec::new();
    let mut i: usize = 0;
    while i < ts.len()
        invariant
            i <= ts.len(),
            out.len() == i,
            forall|j: int| 0 <= j < i ==> #[trigger] out.deep_view()[j] == " "@ + as_argument(
                    ts.deep_view()[j],
                    shown(ts.deep_view()[j]),
                ),
        decreases ts.len() - i,
    {
        let text = show_type(&ts[i]);
        let arg = match &ts[i] {
            Type::Con(name, args) => {
                assert(args.deep_view().len() == args.len());
                if args.len() != 0 && !text_eq(after_last_dot(name.as_str()), "Tuple") {
                    concat(concat("(", text.as_str()).as_str(), ")")
                } else {
                    text
                }
            },
            _ => text,
        };
        assert(arg@ == as_argument(ts@[i as int]@, shown(ts@[i as int]@)));
        push_value(&mut out, concat(" ", arg.as_str()));
        i = i + 1;
    }
    assert(out.deep_view() =~= shown_arguments(ts.deep_view()));
    out
}

fn show_parameters(ts: &Vec<Type>) -> (r: Vec<String>)
    ensures
        r.deep_view() == shown_parameters(ts.deep_view()),
    decreases ts,
{
    let mut out: Vec<String> = Vec::new();
    let mut i: usize = 0;
    while i < ts.len()
        invariant
            i <= ts.len(),
            out.len() == i,
            forall|j: int|
                0 <= j < i ==> #[trigger] out.deep_view()[j] == " "@ + shown(ts.deep_view()[j]),
        decreases ts.len() - i,
    {
        push_value(&mut out, concat(" ", show_type(&ts[i]).as_str()));
        i = i + 1;
    }
    assert(out.deep_view() =~= shown_parameters(ts.deep_view()));
    out
}

fn show_tails(ts: &Vec<Type>) -> (r: Vec<String>)
    ensures
        r.deep_view() == shown_tails(ts.deep_view()),
    decreases ts,
{
    let mut out: Vec<String> = Vec::new();
    let mut i: usize = 0;
    while i < ts.len()
        invariant
            i <= ts.len(),
            out.len() == i,
            forall|j: int|
                0 <= j < i ==> #[trigger] out.deep_view()[j] == ".."@ + shown(ts.deep_view()[j]),
        decreases ts.len() - i,
    {
        push_value(&mut out, concat("..", show_type(&ts[i]).as_str()));
        i = i + 1;
    }
    assert(out.deep_view() =~= shown_tails(ts.deep_view()));
    out
}

fn show_fields(fields: &Vec<(String, Type)>) -> (r: Vec<String>)
    ensures
        r.deep_view() == shown_fields(fields.deep_view()),
    decreases fields,
{
    let mut out: Vec<String> = Vec::new();
    let mut i: usize = 0;
    while i < fields.len()
        invariant
            i <= fields.len(),
            out.len() == i,
            forall|j: int|
                0 <= j < i ==> #[trigger] out.deep_view()[j] == fields.deep_view()[j].0 + ": "@
                + shown(fields.deep_view()[j].1),
        decreases fields.len() - i,
    {
        let mut text = concat(fields[i].0.as_str(), ": ");
        text.append(show_type(&fields[i].1).as_str());
        push_value(&mut out, text);
        i = i + 1;
    }
    assert(out.deep_view() =~= shown_fields(fields.deep_view()));
    out
}

fn show_effects(effects: &Vec<EffectEntry>) -> (r: Vec<String>)
    ensures
        r.deep_view() == shown_effects(effects.deep_view()),
    decreases effects,
{
    let mut out: Vec<String> = Vec::new();
    let mut i: usize = 0;
    while i < effects.len()
        invariant
            i <= effects.len(),
            out.len() == i,
            forall|j: int|
                0 <= j < i ==> #[trigger] out.deep_view()[j] == shown_entry(effects.deep_view()[j]),
        decreases effects.len() - i,
    {
        push_value(&mut out, show_entry(&effects[i]));
        i = i + 1;
    }
    assert(out.deep_view() =~= shown_effects(effects.deep_view()));
    out
}

fn show_entry(e: &EffectEntry) -> (r: String)
    ensures
        r@ == shown_entry(e@),
    decreases e,
{
    let parts = show_parameters(&e.args);
    concat(e.name.as_str(), join_together(&parts).as_str())
}

fn show_needs(row: &EffectRow) -> (r: String)
    ensures
        r@ == shown_needs(row@),
    decreases row,
{
    assert(row.effects.deep_view().len() == row.effects.len());
    assert(row.tails.deep_view().len() == row.tails.len());
    if row.effects.len() == 0 && row.tails.len() == 0 {
        return String::new();
    }
    let mut parts = show_effects(&row.effects);
    let mut tails = show_tails(&row.tails);
    let ghost whole = parts.deep_view() + tails.deep_view();
    parts.append(&mut tails);
    assert(parts.deep_view() =~= whole);
    let mut r = concat(" needs {", join_text(&parts, ", ").as_str());
    r.append("}");
    r
}

impl Type {
    /// The type as text.
    pub fn display(&self) -> (r: String)
        ensures
            r@ == shown(self@),
    {
        show_type(self)
    }
}

} // verus!
