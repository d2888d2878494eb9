//! Places in a source file, and the tokens that a module declaration is made of.

use vstd::prelude::*;
use crate::values::{Dup, Same};

verus! {

/// A range of bytes in a source file.
#[derive(Debug, Clone, Copy, PartialEq, Eq, Structural)]
pub struct Span {
    pub start: usize,
    pub end: usize,
}

impl DeepView for Span {
    type V = Span;

    open spec fn deep_view(&self) -> Span {
        *self
    }
}

impl Dup for Span {
    fn dup(&self) -> (r: Self) {
        *self
    }
}

impl Same for Span {
    fn same(&self, other: &Self) -> (r: bool) {
        *self == *other
    }
}

/// The tokens of a source file, as far as a module declaration is made of them.
#[derive(Debug)]
pub enum Token {
    Module,
    UpperIdent(String),
    Dot,
    Other,
}

} // verus!
