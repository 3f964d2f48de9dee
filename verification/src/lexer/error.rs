//! Lexer errors.
use vstd::prelude::*;

use crate::span::Span;
use crate::text::{char_debug, char_debug_text, decimal_text, upper_hex, upper_hex_text, usize_text};

verus! {

/// An error produced while lexing Sapphire source.
#[derive(Debug, Clone, PartialEq, Eq)]
pub struct LexError {
    pub kind: LexErrorKind,
    pub span: Span,
}

impl LexError {
    /// An error of the given kind at the given span.
    pub fn new(kind: LexErrorKind, span: Span) -> (r: LexError)
        ensures
            r.kind == kind,
            r.span == span,
    {
        LexError { kind, span }
    }

    /// `lex error at bytes S..E: <message>`.
    pub fn render(&self) -> (r: String)
        ensures
            r@ == "lex error at bytes "@ + decimal_text(self.span.start as nat) + ".."@
                + decimal_text(self.span.end as nat) + ": "@ + self.kind.message_text(),
    {
        let mut r = String::from_str("lex error at bytes ");
        let a = usize_text(self.span.start);
        r.append(a.as_str());
        r.append("..");
        let b = usize_text(self.span.end);
        r.append(b.as_str());
        r.append(": ");
        let m = self.kind.message();
        r.append(m.as_str());
        proof {
            assert(r@ == "lex error at bytes "@ + a@ + ".."@ + b@ + ": "@ + m@);
        }
        r
    }
}

/// Categorisation of lexical errors.
#[derive(Debug, Clone, PartialEq, Eq)]
pub enum LexErrorKind {
    /// A `\r` not followed by `\n`.
    BareCarriageReturn,
    /// A horizontal tab before the first token of a logical line.
    TabInLayoutPosition,
    /// A non-ASCII letter where an identifier would start.
    NonAsciiIdentStart,
    /// A character that matches no lexical production.
    UnexpectedChar(char),
    /// A `{-` without its matching `-}`.
    UnterminatedBlockComment,
    /// A string literal without its closing `"`.
    UnterminatedString,
    /// A newline inside a string literal.
    NewlineInString,
    /// An escape `\X` with an unknown `X`.
    UnknownEscape(char),
    /// A `\u{...}` escape with missing braces or a bad digit count.
    MalformedUnicodeEscape,
    /// A `\u{...}` escape naming a value that is not a Unicode scalar.
    InvalidUnicodeScalar(u32),
    /// An integer literal above `i64::MAX`.
    IntegerOverflow,
    /// An empty integer literal.
    MalformedIntLiteral,
}

impl LexErrorKind {
    /// The message text of each kind without a payload; for the three
    /// kinds with a payload, the text that comes before it.
    pub open spec fn message_spec(&self) -> Seq<char> {
        match self {
            LexErrorKind::BareCarriageReturn => "bare carriage return (expected CRLF or LF)"@,
            LexErrorKind::TabInLayoutPosition => "horizontal tab in layout-anchoring position"@,
            LexErrorKind::NonAsciiIdentStart => "non-ASCII character cannot start an identifier"@,
            LexErrorKind::UnterminatedBlockComment => "unterminated block comment"@,
            LexErrorKind::UnterminatedString => "unterminated string literal"@,
            LexErrorKind::NewlineInString => "newline inside string literal"@,
            LexErrorKind::MalformedUnicodeEscape => "malformed \\u{...} escape"@,
            LexErrorKind::IntegerOverflow => "integer literal overflows i64"@,
            LexErrorKind::MalformedIntLiteral => "malformed integer literal"@,
            LexErrorKind::UnexpectedChar(..) => "unexpected character "@,
            LexErrorKind::UnknownEscape(..) => "unknown escape sequence \\"@,
            LexErrorKind::InvalidUnicodeScalar(..) => "invalid Unicode scalar U+"@,
        }
    }

    /// The whole message: the fixed text, then the payload where there
    /// is one (the character as `Debug` writes it, the escape character
    /// itself, or the value in upper-case hexadecimal).
    pub open spec fn message_text(&self) -> Seq<char> {
        match self {
            LexErrorKind::UnexpectedChar(c) => self.message_spec() + char_debug(*c),
            LexErrorKind::UnknownEscape(c) => self.message_spec().push(*c),
            LexErrorKind::InvalidUnicodeScalar(n) => self.message_spec() + upper_hex_text(
                *n as nat,
            ),
            _ => self.message_spec(),
        }
    }

    /// A human-readable description of the error kind.
    pub fn message(&self) -> (r: String)
        ensures
            r@ == self.message_text(),
    {
        match self {
            LexErrorKind::BareCarriageReturn => String::from_str(
                "bare carriage return (expected CRLF or LF)",
            ),
            LexErrorKind::TabInLayoutPosition => String::from_str(
                "horizontal tab in layout-anchoring position",
            ),
            LexErrorKind::NonAsciiIdentStart => String::from_str(
                "non-ASCII character cannot start an identifier",
            ),
            LexErrorKind::UnexpectedChar(c) => {
                let mut r = String::from_str("unexpected character ");
                let d = char_debug_text(*c);
                r.append(d.as_str());
                r
            },
            LexErrorKind::UnterminatedBlockComment => String::from_str(
                "unterminated block comment",
            ),
            LexErrorKind::UnterminatedString => String::from_str("unterminated string literal"),
            LexErrorKind::NewlineInString => String::from_str("newline inside string literal"),
            LexErrorKind::UnknownEscape(c) => {
                let mut r = String::from_str("unknown escape sequence \\");
                r.push(*c);
                r
            },
            LexErrorKind::MalformedUnicodeEscape => String::from_str("malformed \\u{...} escape"),
            LexErrorKind::InvalidUnicodeScalar(n) => {
                let mut r = String::from_str("invalid Unicode scalar U+");
                let h = upper_hex(*n);
                r.append(h.as_str());
                r
            },
            LexErrorKind::IntegerOverflow => String::from_str("integer literal overflows i64"),
            LexErrorKind::MalformedIntLiteral => String::from_str("malformed integer literal"),
        }
    }
}

} // verus!
