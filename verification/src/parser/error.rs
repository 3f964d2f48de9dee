//! Parser errors.
use vstd::prelude::*;

use crate::lexer::token::kind_text;
use crate::lexer::TokenKind;
use crate::span::Span;
use crate::text::{decimal_text, usize_text};

verus! {

/// An error produced while parsing.
#[derive(Debug, Clone, PartialEq, Eq)]
pub struct ParseError {
    pub kind: ParseErrorKind,
    pub span: Span,
}

impl ParseError {
    /// An error of the given kind at the given span.
    pub fn new(kind: ParseErrorKind, span: Span) -> (r: ParseError)
        ensures
            r.kind == kind,
            r.span == span,
    {
        ParseError { kind, span }
    }

    /// `parse error at bytes S..E: <message>`.
    pub fn render(&self) -> (r: String)
        ensures
            exists|m: Seq<char>|
                r@ == "parse error at bytes "@ + decimal_text(self.span.start as nat) + ".."@
                    + decimal_text(self.span.end as nat) + ": "@ + m && self.kind.message_is(m),
    {
        let mut r = String::from_str("parse error at bytes ");
        let a = usize_text(self.span.start);
        r.append(a.as_str());
        r.append("..");
        let b = usize_text(self.span.end);
        r.append(b.as_str());
        r.append(": ");
        let m = self.kind.message();
        r.append(m.as_str());
        proof {
            assert(r@ == "parse error at bytes "@ + a@ + ".."@ + b@ + ": "@ + m@);
        }
        r
    }
}

/// Categorisation of parse errors.
#[derive(Debug, Clone, PartialEq, Eq)]
pub enum ParseErrorKind {
    /// A specific token or construct was expected.
    Expected { expected: &'static str, found: TokenKind },
    /// A token that no production accepts at this point.
    Unexpected(TokenKind),
    /// Input ended while a construct was still open.
    UnexpectedEof { expected: &'static str },
    /// A chain of non-associative comparison operators.
    NonAssociativeChain,
    /// An operator not defined at the expression layer.
    InvalidOperator(String),
    /// A construct this compiler does not support yet.
    UnsupportedFeature(&'static str),
    /// A layout block the layout pass could not resolve.
    MalformedLayout,
}

impl ParseErrorKind {
    /// `m` is the message of this kind: the fixed text with the payload
    /// written in, token kinds as `TokenKind::render` writes them.
    pub open spec fn message_is(&self, m: Seq<char>) -> bool {
        match self {
            ParseErrorKind::Expected { expected, found } => exists|f: Seq<char>|
                kind_text(*found, f) && m == "expected "@ + expected@ + ", found "@ + f,
            ParseErrorKind::Unexpected(t) => exists|f: Seq<char>|
                kind_text(*t, f) && m == "unexpected token "@ + f,
            ParseErrorKind::UnexpectedEof { expected } => m == "unexpected end of input, expected "@
                + expected@,
            ParseErrorKind::NonAssociativeChain => m
                == "comparison operators are non-associative; parenthesise to group"@,
            ParseErrorKind::InvalidOperator(op) => m == "operator `"@ + op@
                + "` is not defined at the expression layer"@,
            ParseErrorKind::UnsupportedFeature(desc) => m == desc@
                + " is not supported yet"@,
            ParseErrorKind::MalformedLayout => m == "malformed layout block"@,
        }
    }

    /// A human-readable description of the error kind.
    pub fn message(&self) -> (r: String)
        ensures
            self.message_is(r@),
    {
        match self {
            ParseErrorKind::Expected { expected, found } => {
                let mut r = String::from_str("expected ");
                r.append(expected);
                r.append(", found ");
                let f = found.render();
                r.append(f.as_str());
                proof {
                    assert(r@ == "expected "@ + expected@ + ", found "@ + f@);
                }
                r
            },
            ParseErrorKind::Unexpected(t) => {
                let mut r = String::from_str("unexpected token ");
                let f = t.render();
                r.append(f.as_str());
                r
            },
            ParseErrorKind::UnexpectedEof { expected } => {
                let mut r = String::from_str("unexpected end of input, expected ");
                r.append(expected);
                r
            },
            ParseErrorKind::NonAssociativeChain => String::from_str(
                "comparison operators are non-associative; parenthesise to group",
            ),
            ParseErrorKind::InvalidOperator(op) => {
                let mut r = String::from_str("operator `");
                r.append(op.as_str());
                r.append("` is not defined at the expression layer");
                r
            },
            ParseErrorKind::UnsupportedFeature(desc) => {
                let mut r = String::from_str(desc);
                r.append(" is not supported yet");
                r
            },
            ParseErrorKind::MalformedLayout => String::from_str("malformed layout block"),
        }
    }
}

} // verus!
