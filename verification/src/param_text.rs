//! Type parameters as messages show them: in the form that their `Debug` gives.

use vstd::prelude::*;
use crate::ast::{Kind, TypeParam, TypeParamModel};
use crate::text::{concat3, concat5, join_text, joined};
use crate::values::push_value;

verus! {

/// What `{:?}` makes of a text: the text in quotes, with escapes.
pub uninterp spec fn quoted(s: Seq<char>) -> Seq<char>;

/// `format!("{:?}", s)`, the `Debug` of `str`, whose result depends on the text alone.
#[verifier::external_body]
fn quote(s: &str) -> (r: String)
    ensures
        r@ == quoted(s@),
{
    format!("{:?}", s)
}

pub open spec fn kind_text(kind: Kind) -> Seq<char> {
    match kind {
        Kind::Star => "Star"@,
        Kind::Symbol => "Symbol"@,
    }
}

/// A type parameter, from its quoted name and its kind.
pub open spec fn param_text(name: Seq<char>, kind: Kind) -> Seq<char> {
    "TypeParam { name: "@ + name + ", kind: "@ + kind_text(kind) + " }"@
}

/// Type parameters in a list, from their quoted names and their kinds.
pub open spec fn param_list(names: Seq<Seq<char>>, kinds: Seq<Kind>) -> Seq<char> {
    "["@ + joined(
        Seq::new(names.len(), |i: int| param_text(names[i], kinds[i])),
        ", "@,
    ) + "]"@
}

/// Type parameters in a list.
pub open spec fn shown_params(params: Seq<TypeParamModel>) -> Seq<char> {
    param_list(
        params.map_values(|p: TypeParamModel| quoted(p.name)),
        params.map_values(|p: TypeParamModel| p.kind),
    )
}

fn show_kind(kind: Kind) -> (r: &'static str)
    ensures
        r@ == kind_text(kind),
{
    match kind {
        Kind::Star => "Star",
        Kind::Symbol => "Symbol",
    }
}

/// Type parameters in a list, from their quoted names and their kinds.
pub fn list_params(names: &Vec<String>, kinds: &Vec<Kind>) -> (r: String)
    requires
        names.len() == kinds.len(),
    ensures
        r@ == param_list(names.deep_view(), kinds@),
{
    let ghost all = Seq::new(
        names.deep_view().len(),
        |i: int| param_text(names.deep_view()[i], kinds@[i]),
    );
    let mut out: Vec<String> = Vec::new();
    let mut i: usize = 0;
    while i < names.len()
        invariant
            i <= names.len(),
            names.len() == kinds.len(),
            out.len() == i,
            forall|j: int|
                0 <= j < i ==> #[trigger] out.deep_view()[j] == param_text(
                    names.deep_view()[j],
                    kinds@[j],
                ),
        decreases names.len() - i,
    {
        let shown = concat5(
            "TypeParam { name: ",
            names[i].as_str(),
            ", kind: ",
            show_kind(kinds[i]),
            " }",
        );
        push_value(&mut out, shown);
        i = i + 1;
    }
    assert(out.deep_view() =~= all);
    let inner = join_text(&out, ", ");
    concat3("[", inner.as_str(), "]")
}

/// Type parameters in a list.
pub fn show_params(params: &Vec<TypeParam>) -> (r: String)
    ensures
        r@ == shown_params(params.deep_view()),
{
    let ghost all = params.deep_view();
    let mut names: Vec<String> = Vec::new();
    let mut kinds: Vec<Kind> = Vec::new();
    let mut i: usize = 0;
    while i < params.len()
        invariant
            i <= params.len(),
            all == params.deep_view(),
            names.len() == i,
            kinds.len() == i,
            forall|j: int| 0 <= j < i ==> #[trigger] names.deep_view()[j] == quoted(all[j].name),
            forall|j: int| 0 <= j < i ==> #[trigger] kinds@[j] == all[j].kind,
        decreases params.len() - i,
    {
        push_value(&mut names, quote(params[i].name.as_str()));
        kinds.push(params[i].kind);
        i = i + 1;
    }
    assert(names.deep_view() =~= all.map_values(|p: TypeParamModel| quoted(p.name)));
    assert(kinds@ =~= all.map_values(|p: TypeParamModel| p.kind));
    list_params(&names, &kinds)
}

} // verus!
