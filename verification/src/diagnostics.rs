//! Errors and warnings.

use vstd::prelude::*;
use crate::token::Span;
use crate::values::Dup;

verus! {

#[derive(Debug, Clone, Copy, PartialEq, Eq, Structural)]
pub enum Severity {
    Error,
    Warning,
}

#[derive(Debug)]
pub struct Diagnostic {
    pub severity: Severity,
    pub message: String,
    pub span: Option<Span>,
}

/// What a diagnostic says.
#[verifier::ext_equal]
pub struct Diag {
    pub severity: Severity,
    pub message: Seq<char>,
    pub span: Option<Span>,
}

impl View for Diagnostic {
    type V = Diag;

    open spec fn view(&self) -> Diag {
        Diag { severity: self.severity, message: self.message@, span: self.span }
    }
}

impl DeepView for Diagnostic {
    type V = Diag;

    open spec fn deep_view(&self) -> Diag {
        self@
    }
}

impl Dup for Diagnostic {
    fn dup(&self) -> (r: Self) {
        Diagnostic { severity: self.severity, message: self.message.clone(), span: self.span }
    }
}

/// An error without a place.
pub open spec fn an_error(message: Seq<char>) -> Diag {
    Diag { severity: Severity::Error, message, span: None }
}

/// An error at a place.
pub open spec fn an_error_at(span: Span, message: Seq<char>) -> Diag {
    Diag { severity: Severity::Error, message, span: Some(span) }
}

impl Diagnostic {
    pub fn new(severity: Severity, message: String) -> (r: Self)
        ensures
            r@ == (Diag { severity, message: message@, span: None }),
    {
        Diagnostic { severity, message, span: None }
    }

    pub fn at(span: Span, severity: Severity, message: String) -> (r: Self)
        ensures
            r@ == (Diag { severity, message: message@, span: Some(span) }),
    {
        Diagnostic { severity, message, span: Some(span) }
    }

    /// Error with no span.
    pub fn error(message: String) -> (r: Self)
        ensures
            r@ == an_error(message@),
    {
        Diagnostic::new(Severity::Error, message)
    }

    /// Error at a specific span.
    pub fn error_at(span: Span, message: String) -> (r: Self)
        ensures
            r@ == an_error_at(span, message@),
    {
        Diagnostic::at(span, Severity::Error, message)
    }

    /// Warning at a specific span.
    pub fn warning_at(span: Span, message: String) -> (r: Self)
        ensures
            r@ == (Diag { severity: Severity::Warning, message: message@, span: Some(span) }),
    {
        Diagnostic::at(span, Severity::Warning, message)
    }

    /// The diagnostic at `span`, where it has no place yet.
    pub fn with_span(self, span: Span) -> (r: Self)
        ensures
            r@ == (Diag {
                span: if self@.span is None {
                    Some(span)
                } else {
                    self@.span
                },
                ..self@
            }),
    {
        match self.span {
            None => Diagnostic { severity: self.severity, message: self.message, span: Some(span) },
            Some(_) => self,
        }
    }

    /// The diagnostic as text: its message.
    pub fn display(&self) -> (r: String)
        ensures
            r@ == self@.message,
    {
        self.message.clone()
    }
}

} // verus!
