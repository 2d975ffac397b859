//! Compiler diagnostics.

use crate::ast::Span;
use vstd::prelude::*;

verus! {

/// The compiler stage that produced a diagnostic.
#[derive(Clone, Copy, Debug, Eq, PartialEq, Structural)]
pub enum DiagnosticPhase {
    /// Lexing or parsing.
    Syntax,
    /// Structural semantic validation of the lowered AST.
    Semantic,
    /// Move, borrow, and reference-lifetime validation.
    Ownership,
    /// Lowering from resolved syntax into the compiler's backend IR.
    Hir,
    /// Structured Rust generation or validation.
    Codegen,
}

/// A source diagnostic produced by the compiler.
#[derive(Clone, Debug, Eq, PartialEq)]
pub struct Diagnostic {
    /// Stable diagnostic identifier.
    pub code: &'static str,
    /// Compiler phase.
    pub phase: DiagnosticPhase,
    /// Human-readable explanation.
    pub message: String,
    /// Relevant source range.
    pub span: Span,
}

impl Diagnostic {
    /// A lexing or parsing diagnostic.
    pub fn syntax(code: &'static str, message: String, span: Span) -> (r: Self)
        ensures
            r == (Diagnostic { code, phase: DiagnosticPhase::Syntax, message, span }),
    {
        Diagnostic { code, phase: DiagnosticPhase::Syntax, message, span }
    }

    /// A structural semantic diagnostic.
    pub fn semantic(code: &'static str, message: String, span: Span) -> (r: Self)
        ensures
            r == (Diagnostic { code, phase: DiagnosticPhase::Semantic, message, span }),
    {
        Diagnostic { code, phase: DiagnosticPhase::Semantic, message, span }
    }

    /// A move, borrow, or reference-lifetime diagnostic.
    pub fn ownership(code: &'static str, message: String, span: Span) -> (r: Self)
        ensures
            r == (Diagnostic { code, phase: DiagnosticPhase::Ownership, message, span }),
    {
        Diagnostic { code, phase: DiagnosticPhase::Ownership, message, span }
    }

    /// A backend IR lowering diagnostic.
    pub fn hir(code: &'static str, message: String, span: Span) -> (r: Self)
        ensures
            r == (Diagnostic { code, phase: DiagnosticPhase::Hir, message, span }),
    {
        Diagnostic { code, phase: DiagnosticPhase::Hir, message, span }
    }

    /// A Rust generation diagnostic.
    pub fn codegen(code: &'static str, message: String, span: Span) -> (r: Self)
        ensures
            r == (Diagnostic { code, phase: DiagnosticPhase::Codegen, message, span }),
    {
        Diagnostic { code, phase: DiagnosticPhase::Codegen, message, span }
    }
}

} // verus!
