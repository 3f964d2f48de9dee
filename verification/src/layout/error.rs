//! Layout-pass errors.
use vstd::prelude::*;

use crate::text::{decimal_text, usize_text};

use crate::span::Span;

verus! {

/// An error produced by the layout pass.
#[derive(Debug, Clone, PartialEq, Eq)]
pub struct LayoutError {
    pub kind: LayoutErrorKind,
    pub span: Span,
}

impl LayoutError {
    /// An error of the given kind at the given span.
    pub fn new(kind: LayoutErrorKind, span: Span) -> (r: LayoutError)
        ensures
            r.kind == kind,
            r.span == span,
    {
        LayoutError { kind, span }
    }

    /// `layout error at bytes S..E: <message>`.
    pub fn render(&self) -> (r: String)
        ensures
            r@ == "layout error at bytes "@ + decimal_text(self.span.start as nat) + ".."@
                + decimal_text(self.span.end as nat) + ": "@ + self.kind.message_spec(),
    {
        let mut r = String::from_str("layout error at bytes ");
        let a = usize_text(self.span.start);
        r.append(a.as_str());
        r.append("..");
        let b = usize_text(self.span.end);
        r.append(b.as_str());
        r.append(": ");
        let m = self.kind.message();
        r.append(m.as_str());
        proof {
            assert(r@ == "layout error at bytes "@ + a@ + ".."@ + b@ + ": "@ + m@);
        }
        r
    }
}

/// The two structural faults the layout pass diagnoses itself.
#[derive(Debug, Clone, PartialEq, Eq)]
pub enum LayoutErrorKind {
    /// An explicit `{` was still open when the file ended.
    UnclosedExplicitBlock,
    /// The input token stream did not end with an `Eof` sentinel.
    MissingEof,
}

impl LayoutErrorKind {
    /// The message text of each kind.
    pub open spec fn message_spec(&self) -> Seq<char> {
        match self {
            LayoutErrorKind::UnclosedExplicitBlock => "unclosed explicit `{` at end of input"@,
            LayoutErrorKind::MissingEof => "token stream missing trailing Eof"@,
        }
    }

    /// A human-readable description of the error kind.
    pub fn message(&self) -> (r: String)
        ensures
            r@ == self.message_spec(),
    {
        match self {
            LayoutErrorKind::UnclosedExplicitBlock => String::from_str(
                "unclosed explicit `{` at end of input",
            ),
            LayoutErrorKind::MissingEof => String::from_str("token stream missing trailing Eof"),
        }
    }
}

} // verus!
