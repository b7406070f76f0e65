use crate::ast::span::Span;
use vstd::prelude::*;

verus! {

/// How serious a diagnostic is. None of them stops a parse.
#[derive(Debug, Clone, Copy, PartialEq, Eq, Structural)]
pub enum Severity {
    Error,
    Warning,
    Info,
}

/// The phase that produced a diagnostic.
#[derive(Debug, Clone, Copy, PartialEq, Eq, Structural)]
pub enum DiagnosticPhase {
    Lex,
    Parse,
    Validate,
    Normalize,
}

/// A structured note about a recovery decision.
#[derive(Debug, Clone, PartialEq, Eq)]
pub struct Diagnostic {
    pub severity: Severity,
    pub phase: Option<DiagnosticPhase>,
    /// A stable identifier such as `wikitext.ref.unclosed`.
    pub code: Option<String>,
    pub message: String,
    pub span: Option<Span>,
    pub notes: Vec<String>,
}

/// What a `Diagnostic` holds, over sequences.
pub struct DiagnosticView {
    pub severity: Severity,
    pub phase: Option<DiagnosticPhase>,
    pub code: Option<Seq<char>>,
    pub message: Seq<char>,
    pub span: Option<Span>,
    pub notes: Seq<Seq<char>>,
}

pub open spec fn opt_string_view(s: Option<String>) -> Option<Seq<char>> {
    match s {
        Some(v) => Some(v@),
        None => None,
    }
}

pub open spec fn strings_view(s: Seq<String>) -> Seq<Seq<char>> {
    Seq::new(s.len(), |i: int| s[i]@)
}

impl View for Diagnostic {
    type V = DiagnosticView;

    open spec fn view(&self) -> DiagnosticView {
        DiagnosticView {
            severity: self.severity,
            phase: self.phase,
            code: opt_string_view(self.code),
            message: self.message@,
            span: self.span,
            notes: strings_view(self.notes@),
        }
    }
}

pub open spec fn diagnostics_view(s: Seq<Diagnostic>) -> Seq<DiagnosticView> {
    Seq::new(s.len(), |i: int| s[i]@)
}

} // verus!
