//! One error type over the three front-end stages.
//!
//! Each stage keeps its own error type; `CompileError` wraps whichever
//! one occurred, carries its span, and gives a stable diagnostic code
//! and the message without the `... at bytes A..B: ` prefix that each
//! stage's `render` writes.
use vstd::prelude::*;

use crate::layout::LayoutError;
use crate::lexer::LexError;
use crate::parser::ParseError;
use crate::span::Span;

verus! {

/// A front-end compilation error paired with its source span.
#[derive(Debug, Clone, PartialEq, Eq)]
pub struct CompileError {
    pub kind: CompileErrorKind,
    pub span: Span,
}

/// The stage error behind a `CompileError`.
#[derive(Debug, Clone, PartialEq, Eq)]
pub enum CompileErrorKind {
    Lex(LexError),
    Layout(LayoutError),
    Parse(ParseError),
}

/// The span a wrapped stage error carries.
pub open spec fn inner_span(k: CompileErrorKind) -> Span {
    match k {
        CompileErrorKind::Lex(e) => e.span,
        CompileErrorKind::Layout(e) => e.span,
        CompileErrorKind::Parse(e) => e.span,
    }
}

/// The diagnostic code of each stage.
pub open spec fn code_of(k: CompileErrorKind) -> Seq<char> {
    match k {
        CompileErrorKind::Lex(_) => "sapphire/lex-error"@,
        CompileErrorKind::Layout(_) => "sapphire/layout-error"@,
        CompileErrorKind::Parse(_) => "sapphire/parse-error"@,
    }
}

/// `m` is the message of the wrapped error's kind.
pub open spec fn message_of(k: CompileErrorKind, m: Seq<char>) -> bool {
    match k {
        CompileErrorKind::Lex(e) => m == e.kind.message_text(),
        CompileErrorKind::Layout(e) => m == e.kind.message_spec(),
        CompileErrorKind::Parse(e) => e.kind.message_is(m),
    }
}

impl CompileError {
    /// Wrap a lexer error.
    pub fn from_lex(err: LexError) -> (r: CompileError)
        ensures
            r.kind == CompileErrorKind::Lex(err),
            r.span == err.span,
    {
        let span = err.span;
        CompileError { kind: CompileErrorKind::Lex(err), span }
    }

    /// Wrap a layout error.
    pub fn from_layout(err: LayoutError) -> (r: CompileError)
        ensures
            r.kind == CompileErrorKind::Layout(err),
            r.span == err.span,
    {
        let span = err.span;
        CompileError { kind: CompileErrorKind::Layout(err), span }
    }

    /// Wrap a parser error.
    pub fn from_parse(err: ParseError) -> (r: CompileError)
        ensures
            r.kind == CompileErrorKind::Parse(err),
            r.span == err.span,
    {
        let span = err.span;
        CompileError { kind: CompileErrorKind::Parse(err), span }
    }

    /// A short, stable identifier of the stage that failed, for tagging
    /// diagnostics.
    pub fn code(&self) -> (r: &'static str)
        ensures
            r@ == code_of(self.kind),
    {
        match &self.kind {
            CompileErrorKind::Lex(_) => "sapphire/lex-error",
            CompileErrorKind::Layout(_) => "sapphire/layout-error",
            CompileErrorKind::Parse(_) => "sapphire/parse-error",
        }
    }

    /// The wrapped error's message, without the span prefix.
    pub fn message(&self) -> (r: String)
        ensures
            message_of(self.kind, r@),
    {
        match &self.kind {
            CompileErrorKind::Lex(e) => e.kind.message(),
            CompileErrorKind::Layout(e) => e.kind.message(),
            CompileErrorKind::Parse(e) => e.kind.message(),
        }
    }

    /// The wrapped error as its stage renders it, span prefix included.
    pub fn render(&self) -> (r: String)
        ensures
            self.kind matches CompileErrorKind::Lex(e) ==> r@ == "lex error at bytes "@
                + crate::text::decimal_text(e.span.start as nat) + ".."@
                + crate::text::decimal_text(e.span.end as nat) + ": "@ + e.kind.message_text(),
            self.kind matches CompileErrorKind::Layout(e) ==> r@ == "layout error at bytes "@
                + crate::text::decimal_text(e.span.start as nat) + ".."@
                + crate::text::decimal_text(e.span.end as nat) + ": "@ + e.kind.message_spec(),
            self.kind matches CompileErrorKind::Parse(e) ==> exists|m: Seq<char>|
                r@ == "parse error at bytes "@ + crate::text::decimal_text(e.span.start as nat)
                    + ".."@ + crate::text::decimal_text(e.span.end as nat) + ": "@ + m
                    && e.kind.message_is(m),
    {
        match &self.kind {
            CompileErrorKind::Lex(e) => e.render(),
            CompileErrorKind::Layout(e) => e.render(),
            CompileErrorKind::Parse(e) => e.render(),
        }
    }
}

impl From<LexError> for CompileError {
    fn from(err: LexError) -> (r: CompileError) {
        CompileError::from_lex(err)
    }
}

impl vstd::std_specs::convert::FromSpecImpl<LexError> for CompileError {
    open spec fn obeys_from_spec() -> bool {
        true
    }

    open spec fn from_spec(err: LexError) -> CompileError {
        CompileError { kind: CompileErrorKind::Lex(err), span: err.span }
    }
}

impl From<LayoutError> for CompileError {
    fn from(err: LayoutError) -> (r: CompileError) {
        CompileError::from_layout(err)
    }
}

impl vstd::std_specs::convert::FromSpecImpl<LayoutError> for CompileError {
    open spec fn obeys_from_spec() -> bool {
        true
    }

    open spec fn from_spec(err: LayoutError) -> CompileError {
        CompileError { kind: CompileErrorKind::Layout(err), span: err.span }
    }
}

impl From<ParseError> for CompileError {
    fn from(err: ParseError) -> (r: CompileError) {
        CompileError::from_parse(err)
    }
}

impl vstd::std_specs::convert::FromSpecImpl<ParseError> for CompileError {
    open spec fn obeys_from_spec() -> bool {
        true
    }

    open spec fn from_spec(err: ParseError) -> CompileError {
        CompileError { kind: CompileErrorKind::Parse(err), span: err.span }
    }
}

} // verus!
