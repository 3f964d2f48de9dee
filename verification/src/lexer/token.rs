//! Tokens produced by the Sapphire lexer.
use vstd::prelude::*;

pub use crate::span::Span;
use crate::text::{
    decimal_text, i64_text, signed_decimal_text, string_debug, string_debug_text, usize_text,
};

verus! {

/// A lexed token with its source-byte span.
#[derive(Debug, PartialEq, Eq)]
pub struct Token {
    pub kind: TokenKind,
    pub span: Span,
}

impl Token {
    /// A token of the given kind and span.
    pub fn new(kind: TokenKind, span: Span) -> (r: Token)
        ensures
            r.kind == kind,
            r.span == span,
    {
        Token { kind, span }
    }
}

impl Clone for Token {
    fn clone(&self) -> (r: Token)
        ensures
            r == *self,
    {
        Token { kind: self.kind.clone(), span: self.span }
    }
}

/// The kind of a lexed token: identifiers, reserved words, literals,
/// punctuation, the table operators, the `Op` fallback for other
/// operator runs, the layout markers and the end-of-input sentinel.
#[derive(Debug, PartialEq, Eq)]
pub enum TokenKind {
    /// `[a-z_][A-Za-z0-9_']*` not starting with a bare `_`.
    LowerIdent(String),
    /// `[A-Z][A-Za-z0-9_']*`.
    UpperIdent(String),
    /// Standalone `_` (wildcard pattern).
    Underscore,
    Module,
    Import,
    Hiding,
    As,
    Qualified,
    Export,
    Data,
    Type,
    Class,
    Instance,
    Where,
    Let,
    In,
    If,
    Then,
    Else,
    Case,
    Of,
    Do,
    Forall,
    /// Decimal integer literal; underscores already stripped.
    Int(i64),
    /// String literal with escape sequences already decoded.
    Str(String),
    LParen,
    RParen,
    LBracket,
    RBracket,
    LBrace,
    RBrace,
    Comma,
    Semicolon,
    Dot,
    DotDot,
    Equals,
    Arrow,
    FatArrow,
    Bar,
    DoubleColon,
    Colon,
    LeftArrow,
    Backslash,
    Plus,
    Minus,
    Star,
    Slash,
    Percent,
    EqEq,
    SlashEq,
    Lt,
    LtEq,
    Gt,
    GtEq,
    AndAnd,
    OrOr,
    PlusPlus,
    /// An operator run that is neither reserved punctuation nor a table operator.
    Op(String),
    /// Logical-line terminator.
    Newline,
    /// Code-point column of the first token of a logical line.
    Indent(usize),
    /// End-of-input sentinel.
    Eof,
}

/// A number that identifies the variant of a token kind, payload aside.
pub open spec fn kind_tag(k: TokenKind) -> int {
    match k {
        TokenKind::LowerIdent(..) => 0,
        TokenKind::UpperIdent(..) => 1,
        TokenKind::Underscore => 2,
        TokenKind::Module => 3,
        TokenKind::Import => 4,
        TokenKind::Hiding => 5,
        TokenKind::As => 6,
        TokenKind::Qualified => 7,
        TokenKind::Export => 8,
        TokenKind::Data => 9,
        TokenKind::Type => 10,
        TokenKind::Class => 11,
        TokenKind::Instance => 12,
        TokenKind::Where => 13,
        TokenKind::Let => 14,
        TokenKind::In => 15,
        TokenKind::If => 16,
        TokenKind::Then => 17,
        TokenKind::Else => 18,
        TokenKind::Case => 19,
        TokenKind::Of => 20,
        TokenKind::Do => 21,
        TokenKind::Forall => 22,
        TokenKind::Int(..) => 23,
        TokenKind::Str(..) => 24,
        TokenKind::LParen => 25,
        TokenKind::RParen => 26,
        TokenKind::LBracket => 27,
        TokenKind::RBracket => 28,
        TokenKind::LBrace => 29,
        TokenKind::RBrace => 30,
        TokenKind::Comma => 31,
        TokenKind::Semicolon => 32,
        TokenKind::Dot => 33,
        TokenKind::DotDot => 34,
        TokenKind::Equals => 35,
        TokenKind::Arrow => 36,
        TokenKind::FatArrow => 37,
        TokenKind::Bar => 38,
        TokenKind::DoubleColon => 39,
        TokenKind::Colon => 40,
        TokenKind::LeftArrow => 41,
        TokenKind::Backslash => 42,
        TokenKind::Plus => 43,
        TokenKind::Minus => 44,
        TokenKind::Star => 45,
        TokenKind::Slash => 46,
        TokenKind::Percent => 47,
        TokenKind::EqEq => 48,
        TokenKind::SlashEq => 49,
        TokenKind::Lt => 50,
        TokenKind::LtEq => 51,
        TokenKind::Gt => 52,
        TokenKind::GtEq => 53,
        TokenKind::AndAnd => 54,
        TokenKind::OrOr => 55,
        TokenKind::PlusPlus => 56,
        TokenKind::Op(..) => 57,
        TokenKind::Newline => 58,
        TokenKind::Indent(..) => 59,
        TokenKind::Eof => 60,
    }
}

impl TokenKind {
    /// The variant number of this kind (see `kind_tag`).
    pub fn tag(&self) -> (r: u8)
        ensures
            r as int == kind_tag(*self),
    {
        match self {
            TokenKind::LowerIdent(..) => 0,
            TokenKind::UpperIdent(..) => 1,
            TokenKind::Underscore => 2,
            TokenKind::Module => 3,
            TokenKind::Import => 4,
            TokenKind::Hiding => 5,
            TokenKind::As => 6,
            TokenKind::Qualified => 7,
            TokenKind::Export => 8,
            TokenKind::Data => 9,
            TokenKind::Type => 10,
            TokenKind::Class => 11,
            TokenKind::Instance => 12,
            TokenKind::Where => 13,
            TokenKind::Let => 14,
            TokenKind::In => 15,
            TokenKind::If => 16,
            TokenKind::Then => 17,
            TokenKind::Else => 18,
            TokenKind::Case => 19,
            TokenKind::Of => 20,
            TokenKind::Do => 21,
            TokenKind::Forall => 22,
            TokenKind::Int(..) => 23,
            TokenKind::Str(..) => 24,
            TokenKind::LParen => 25,
            TokenKind::RParen => 26,
            TokenKind::LBracket => 27,
            TokenKind::RBracket => 28,
            TokenKind::LBrace => 29,
            TokenKind::RBrace => 30,
            TokenKind::Comma => 31,
            TokenKind::Semicolon => 32,
            TokenKind::Dot => 33,
            TokenKind::DotDot => 34,
            TokenKind::Equals => 35,
            TokenKind::Arrow => 36,
            TokenKind::FatArrow => 37,
            TokenKind::Bar => 38,
            TokenKind::DoubleColon => 39,
            TokenKind::Colon => 40,
            TokenKind::LeftArrow => 41,
            TokenKind::Backslash => 42,
            TokenKind::Plus => 43,
            TokenKind::Minus => 44,
            TokenKind::Star => 45,
            TokenKind::Slash => 46,
            TokenKind::Percent => 47,
            TokenKind::EqEq => 48,
            TokenKind::SlashEq => 49,
            TokenKind::Lt => 50,
            TokenKind::LtEq => 51,
            TokenKind::Gt => 52,
            TokenKind::GtEq => 53,
            TokenKind::AndAnd => 54,
            TokenKind::OrOr => 55,
            TokenKind::PlusPlus => 56,
            TokenKind::Op(..) => 57,
            TokenKind::Newline => 58,
            TokenKind::Indent(..) => 59,
            TokenKind::Eof => 60,
        }
    }

    /// The kind as text: the variant name, with the payload in
    /// brackets where there is one (`LowerIdent(foo)`, `Int(42)`).
    pub fn render(&self) -> (r: String)
        ensures
            kind_text(*self, r@),
    {
        match self {
            TokenKind::LowerIdent(s) => {
                let mut r = String::from_str("LowerIdent(");
                r.append(s.as_str());
                r.append(")");
                r
            }
            TokenKind::UpperIdent(s) => {
                let mut r = String::from_str("UpperIdent(");
                r.append(s.as_str());
                r.append(")");
                r
            }
            TokenKind::Underscore => String::from_str("Underscore"),
            TokenKind::Module => String::from_str("Module"),
            TokenKind::Import => String::from_str("Import"),
            TokenKind::Hiding => String::from_str("Hiding"),
            TokenKind::As => String::from_str("As"),
            TokenKind::Qualified => String::from_str("Qualified"),
            TokenKind::Export => String::from_str("Export"),
            TokenKind::Data => String::from_str("Data"),
            TokenKind::Type => String::from_str("Type"),
            TokenKind::Class => String::from_str("Class"),
            TokenKind::Instance => String::from_str("Instance"),
            TokenKind::Where => String::from_str("Where"),
            TokenKind::Let => String::from_str("Let"),
            TokenKind::In => String::from_str("In"),
            TokenKind::If => String::from_str("If"),
            TokenKind::Then => String::from_str("Then"),
            TokenKind::Else => String::from_str("Else"),
            TokenKind::Case => String::from_str("Case"),
            TokenKind::Of => String::from_str("Of"),
            TokenKind::Do => String::from_str("Do"),
            TokenKind::Forall => String::from_str("Forall"),
            TokenKind::Int(n) => {
                let mut r = String::from_str("Int(");
                let d = i64_text(*n);
                r.append(d.as_str());
                r.append(")");
                r
            }
            TokenKind::Str(s) => {
                let mut r = String::from_str("Str(");
                let q = string_debug_text(s);
                r.append(q.as_str());
                r.append(")");
                r
            }
            TokenKind::LParen => String::from_str("LParen"),
            TokenKind::RParen => String::from_str("RParen"),
            TokenKind::LBracket => String::from_str("LBracket"),
            TokenKind::RBracket => String::from_str("RBracket"),
            TokenKind::LBrace => String::from_str("LBrace"),
            TokenKind::RBrace => String::from_str("RBrace"),
            TokenKind::Comma => String::from_str("Comma"),
            TokenKind::Semicolon => String::from_str("Semicolon"),
            TokenKind::Dot => String::from_str("Dot"),
            TokenKind::DotDot => String::from_str("DotDot"),
            TokenKind::Equals => String::from_str("Equals"),
            TokenKind::Arrow => String::from_str("Arrow"),
            TokenKind::FatArrow => String::from_str("FatArrow"),
            TokenKind::Bar => String::from_str("Bar"),
            TokenKind::DoubleColon => String::from_str("DoubleColon"),
            TokenKind::Colon => String::from_str("Colon"),
            TokenKind::LeftArrow => String::from_str("LeftArrow"),
            TokenKind::Backslash => String::from_str("Backslash"),
            TokenKind::Plus => String::from_str("Plus"),
            TokenKind::Minus => String::from_str("Minus"),
            TokenKind::Star => String::from_str("Star"),
            TokenKind::Slash => String::from_str("Slash"),
            TokenKind::Percent => String::from_str("Percent"),
            TokenKind::EqEq => String::from_str("EqEq"),
            TokenKind::SlashEq => String::from_str("SlashEq"),
            TokenKind::Lt => String::from_str("Lt"),
            TokenKind::LtEq => String::from_str("LtEq"),
            TokenKind::Gt => String::from_str("Gt"),
            TokenKind::GtEq => String::from_str("GtEq"),
            TokenKind::AndAnd => String::from_str("AndAnd"),
            TokenKind::OrOr => String::from_str("OrOr"),
            TokenKind::PlusPlus => String::from_str("PlusPlus"),
            TokenKind::Op(s) => {
                let mut r = String::from_str("Op(");
                r.append(s.as_str());
                r.append(")");
                r
            }
            TokenKind::Newline => String::from_str("Newline"),
            TokenKind::Indent(n) => {
                let mut r = String::from_str("Indent(");
                let d = usize_text(*n);
                r.append(d.as_str());
                r.append(")");
                r
            }
            TokenKind::Eof => String::from_str("Eof"),
        }
    }
}

/// What `render` gives for a kind: the variant name for a kind without
/// payload, and `Name(text)` for the others: identifiers and operator
/// runs as written, numbers in decimal, string literals as `Debug`
/// writes them.
pub open spec fn kind_text(k: TokenKind, t: Seq<char>) -> bool {
    match k {
        TokenKind::LowerIdent(s) => t == "LowerIdent("@ + s@ + ")"@,
        TokenKind::UpperIdent(s) => t == "UpperIdent("@ + s@ + ")"@,
        TokenKind::Underscore => t == "Underscore"@,
        TokenKind::Module => t == "Module"@,
        TokenKind::Import => t == "Import"@,
        TokenKind::Hiding => t == "Hiding"@,
        TokenKind::As => t == "As"@,
        TokenKind::Qualified => t == "Qualified"@,
        TokenKind::Export => t == "Export"@,
        TokenKind::Data => t == "Data"@,
        TokenKind::Type => t == "Type"@,
        TokenKind::Class => t == "Class"@,
        TokenKind::Instance => t == "Instance"@,
        TokenKind::Where => t == "Where"@,
        TokenKind::Let => t == "Let"@,
        TokenKind::In => t == "In"@,
        TokenKind::If => t == "If"@,
        TokenKind::Then => t == "Then"@,
        TokenKind::Else => t == "Else"@,
        TokenKind::Case => t == "Case"@,
        TokenKind::Of => t == "Of"@,
        TokenKind::Do => t == "Do"@,
        TokenKind::Forall => t == "Forall"@,
        TokenKind::Int(n) => t == "Int("@ + signed_decimal_text(n as int) + ")"@,
        TokenKind::Str(s) => t == "Str("@ + string_debug(s@) + ")"@,
        TokenKind::LParen => t == "LParen"@,
        TokenKind::RParen => t == "RParen"@,
        TokenKind::LBracket => t == "LBracket"@,
        TokenKind::RBracket => t == "RBracket"@,
        TokenKind::LBrace => t == "LBrace"@,
        TokenKind::RBrace => t == "RBrace"@,
        TokenKind::Comma => t == "Comma"@,
        TokenKind::Semicolon => t == "Semicolon"@,
        TokenKind::Dot => t == "Dot"@,
        TokenKind::DotDot => t == "DotDot"@,
        TokenKind::Equals => t == "Equals"@,
        TokenKind::Arrow => t == "Arrow"@,
        TokenKind::FatArrow => t == "FatArrow"@,
        TokenKind::Bar => t == "Bar"@,
        TokenKind::DoubleColon => t == "DoubleColon"@,
        TokenKind::Colon => t == "Colon"@,
        TokenKind::LeftArrow => t == "LeftArrow"@,
        TokenKind::Backslash => t == "Backslash"@,
        TokenKind::Plus => t == "Plus"@,
        TokenKind::Minus => t == "Minus"@,
        TokenKind::Star => t == "Star"@,
        TokenKind::Slash => t == "Slash"@,
        TokenKind::Percent => t == "Percent"@,
        TokenKind::EqEq => t == "EqEq"@,
        TokenKind::SlashEq => t == "SlashEq"@,
        TokenKind::Lt => t == "Lt"@,
        TokenKind::LtEq => t == "LtEq"@,
        TokenKind::Gt => t == "Gt"@,
        TokenKind::GtEq => t == "GtEq"@,
        TokenKind::AndAnd => t == "AndAnd"@,
        TokenKind::OrOr => t == "OrOr"@,
        TokenKind::PlusPlus => t == "PlusPlus"@,
        TokenKind::Op(s) => t == "Op("@ + s@ + ")"@,
        TokenKind::Newline => t == "Newline"@,
        TokenKind::Indent(n) => t == "Indent("@ + decimal_text(n as nat) + ")"@,
        TokenKind::Eof => t == "Eof"@,
    }
}

impl Clone for TokenKind {
    fn clone(&self) -> (r: TokenKind)
        ensures
            r == *self,
    {
        match self {
            TokenKind::LowerIdent(s) => TokenKind::LowerIdent(s.clone()),
            TokenKind::UpperIdent(s) => TokenKind::UpperIdent(s.clone()),
            TokenKind::Underscore => TokenKind::Underscore,
            TokenKind::Module => TokenKind::Module,
            TokenKind::Import => TokenKind::Import,
            TokenKind::Hiding => TokenKind::Hiding,
            TokenKind::As => TokenKind::As,
            TokenKind::Qualified => TokenKind::Qualified,
            TokenKind::Export => TokenKind::Export,
            TokenKind::Data => TokenKind::Data,
            TokenKind::Type => TokenKind::Type,
            TokenKind::Class => TokenKind::Class,
            TokenKind::Instance => TokenKind::Instance,
            TokenKind::Where => TokenKind::Where,
            TokenKind::Let => TokenKind::Let,
            TokenKind::In => TokenKind::In,
            TokenKind::If => TokenKind::If,
            TokenKind::Then => TokenKind::Then,
            TokenKind::Else => TokenKind::Else,
            TokenKind::Case => TokenKind::Case,
            TokenKind::Of => TokenKind::Of,
            TokenKind::Do => TokenKind::Do,
            TokenKind::Forall => TokenKind::Forall,
            TokenKind::Int(n) => TokenKind::Int(*n),
            TokenKind::Str(s) => TokenKind::Str(s.clone()),
            TokenKind::LParen => TokenKind::LParen,
            TokenKind::RParen => TokenKind::RParen,
            TokenKind::LBracket => TokenKind::LBracket,
            TokenKind::RBracket => TokenKind::RBracket,
            TokenKind::LBrace => TokenKind::LBrace,
            TokenKind::RBrace => TokenKind::RBrace,
            TokenKind::Comma => TokenKind::Comma,
            TokenKind::Semicolon => TokenKind::Semicolon,
            TokenKind::Dot => TokenKind::Dot,
            TokenKind::DotDot => TokenKind::DotDot,
            TokenKind::Equals => TokenKind::Equals,
            TokenKind::Arrow => TokenKind::Arrow,
            TokenKind::FatArrow => TokenKind::FatArrow,
            TokenKind::Bar => TokenKind::Bar,
            TokenKind::DoubleColon => TokenKind::DoubleColon,
            TokenKind::Colon => TokenKind::Colon,
            TokenKind::LeftArrow => TokenKind::LeftArrow,
            TokenKind::Backslash => TokenKind::Backslash,
            TokenKind::Plus => TokenKind::Plus,
            TokenKind::Minus => TokenKind::Minus,
            TokenKind::Star => TokenKind::Star,
            TokenKind::Slash => TokenKind::Slash,
            TokenKind::Percent => TokenKind::Percent,
            TokenKind::EqEq => TokenKind::EqEq,
            TokenKind::SlashEq => TokenKind::SlashEq,
            TokenKind::Lt => TokenKind::Lt,
            TokenKind::LtEq => TokenKind::LtEq,
            TokenKind::Gt => TokenKind::Gt,
            TokenKind::GtEq => TokenKind::GtEq,
            TokenKind::AndAnd => TokenKind::AndAnd,
            TokenKind::OrOr => TokenKind::OrOr,
            TokenKind::PlusPlus => TokenKind::PlusPlus,
            TokenKind::Op(s) => TokenKind::Op(s.clone()),
            TokenKind::Newline => TokenKind::Newline,
            TokenKind::Indent(n) => TokenKind::Indent(*n),
            TokenKind::Eof => TokenKind::Eof,
        }
    }
}

} // verus!
