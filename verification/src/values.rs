//! Copying and comparing values by what they stand for.

use vstd::prelude::*;
use crate::text::text_eq;

verus! {

/// A value that can be copied: the copy stands for the same thing.
pub trait Dup: DeepView + Sized {
    fn dup(&self) -> (r: Self)
        ensures
            r.deep_view() == self.deep_view(),
    ;
}

/// A value that can be compared with another of its kind.
pub trait Same: DeepView + Sized {
    fn same(&self, other: &Self) -> (r: bool)
        ensures
            r == (self.deep_view() == other.deep_view()),
    ;
}

/// What an outcome stands for.
pub open spec fn outcome<A: DeepView, E: DeepView>(r: Result<A, E>) -> Result<A::V, E::V> {
    match r {
        Ok(a) => Ok(a.deep_view()),
        Err(e) => Err(e.deep_view()),
    }
}

/// What a step that changes something in place has come to: the new value
/// `a`, or a failure.
pub open spec fn reached<A, E: DeepView>(r: Result<(), E>, a: A) -> Result<A, E::V> {
    match r {
        Ok(_) => Ok(a),
        Err(e) => Err(e.deep_view()),
    }
}

impl Dup for String {
    fn dup(&self) -> (r: Self) {
        self.clone()
    }
}

impl Same for String {
    fn same(&self, other: &Self) -> (r: bool) {
        *self == *other
    }
}

impl Dup for u32 {
    fn dup(&self) -> (r: Self) {
        *self
    }
}

impl Same for u32 {
    fn same(&self, other: &Self) -> (r: bool) {
        *self == *other
    }
}

impl Dup for usize {
    fn dup(&self) -> (r: Self) {
        *self
    }
}

impl Same for usize {
    fn same(&self, other: &Self) -> (r: bool) {
        *self == *other
    }
}

impl Dup for bool {
    fn dup(&self) -> (r: Self) {
        *self
    }
}

impl Same for bool {
    fn same(&self, other: &Self) -> (r: bool) {
        *self == *other
    }
}

impl<A: Dup, B: Dup> Dup for (A, B) {
    fn dup(&self) -> (r: Self) {
        (self.0.dup(), self.1.dup())
    }
}

impl<A: Same, B: Same> Same for (A, B) {
    fn same(&self, other: &Self) -> (r: bool) {
        self.0.same(&other.0) && self.1.same(&other.1)
    }
}

impl<A: Dup, B: Dup, C: Dup> Dup for (A, B, C) {
    fn dup(&self) -> (r: Self) {
        (self.0.dup(), self.1.dup(), self.2.dup())
    }
}

impl<A: Same, B: Same, C: Same> Same for (A, B, C) {
    fn same(&self, other: &Self) -> (r: bool) {
        self.0.same(&other.0) && self.1.same(&other.1) && self.2.same(&other.2)
    }
}

impl<A: Dup, B: Dup, C: Dup, D: Dup> Dup for (A, B, C, D) {
    fn dup(&self) -> (r: Self) {
        (self.0.dup(), self.1.dup(), self.2.dup(), self.3.dup())
    }
}

impl<A: Dup> Dup for Option<A> {
    fn dup(&self) -> (r: Self) {
        match self {
            Some(a) => Some(a.dup()),
            None => None,
        }
    }
}

impl<A: Same> Same for Option<A> {
    fn same(&self, other: &Self) -> (r: bool) {
        match (self, other) {
            (Some(a), Some(b)) => a.same(b),
            (None, None) => true,
            _ => false,
        }
    }
}

impl<A: Dup> Dup for Vec<A> {
    fn dup(&self) -> (r: Self) {
        let mut out: Vec<A> = Vec::new();
        let mut i: usize = 0;
        while i < self.len()
            invariant
                i <= self.len(),
                out.deep_view() == self.deep_view().take(i as int),
            decreases self.len() - i,
        {
            let ghost before = out.deep_view();
            out.push(self[i].dup());
            assert(out.deep_view() =~= before.push(self@[i as int].deep_view()));
            assert(self.deep_view().take(i + 1) =~= self.deep_view().take(i as int).push(
                self@[i as int].deep_view(),
            ));
            i = i + 1;
        }
        assert(self.deep_view().take(i as int) =~= self.deep_view());
        out
    }
}

impl<A: Same> Same for Vec<A> {
    fn same(&self, other: &Self) -> (r: bool) {
        if self.len() != other.len() {
            assert(self.deep_view().len() != other.deep_view().len());
            return false;
        }
        let mut i: usize = 0;
        while i < self.len()
            invariant
                i <= self.len(),
                self.len() == other.len(),
                forall|j: int| 0 <= j < i ==> self.deep_view()[j] == other.deep_view()[j],
            decreases self.len() - i,
        {
            if !self[i].same(&other[i]) {
                assert(self.deep_view()[i as int] != other.deep_view()[i as int]);
                return false;
            }
            i = i + 1;
        }
        assert(self.deep_view() =~= other.deep_view());
        true
    }
}

/// Takes the last item off.
pub fn pop_value<A: DeepView>(items: &mut Vec<A>)
    ensures
        old(items).deep_view().len() > 0 ==> final(items).deep_view() == old(
            items,
        ).deep_view().drop_last(),
{
    let ghost before = items.deep_view();
    items.pop();
    assert(before.len() > 0 ==> items.deep_view() =~= before.drop_last());
}

/// Whether `x` is among `items`.
pub fn contains_value<A: Same>(items: &Vec<A>, x: &A) -> (r: bool)
    ensures
        r == items.deep_view().contains(x.deep_view()),
{
    let mut i: usize = 0;
    while i < items.len()
        invariant
            i <= items.len(),
            forall|j: int| 0 <= j < i ==> items.deep_view()[j] != x.deep_view(),
        decreases items.len() - i,
    {
        if items[i].same(x) {
            assert(items.deep_view()[i as int] == x.deep_view());
            return true;
        }
        i = i + 1;
    }
    false
}

/// Whether `name` is among `names`.
pub fn contains_name(names: &Vec<String>, name: &str) -> (r: bool)
    ensures
        r == names.deep_view().contains(name@),
{
    let mut i: usize = 0;
    while i < names.len()
        invariant
            i <= names.len(),
            forall|j: int| 0 <= j < i ==> names.deep_view()[j] != name@,
        decreases names.len() - i,
    {
        if text_eq(names[i].as_str(), name) {
            assert(names.deep_view()[i as int] == name@);
            return true;
        }
        i = i + 1;
    }
    false
}

/// Adds `x` at the end.
pub fn push_value<A: DeepView>(v: &mut Vec<A>, x: A)
    ensures
        final(v)@ == old(v)@.push(x),
        final(v).deep_view() == old(v).deep_view().push(x.deep_view()),
{
    v.push(x);
    assert(v.deep_view() =~= old(v).deep_view().push(x.deep_view()));
}

/// Moves all of `w` behind `v`.
pub fn append_values<A: DeepView>(v: &mut Vec<A>, w: &mut Vec<A>)
    ensures
        final(v)@ == old(v)@ + old(w)@,
        final(w)@ == Seq::<A>::empty(),
        final(v).deep_view() == old(v).deep_view() + old(w).deep_view(),
{
    v.append(w);
    assert(v.deep_view() =~= old(v).deep_view() + old(w).deep_view());
}

} // verus!
