//! What a token stream says about the source it came from.
use vstd::prelude::*;

use super::token::{Token, TokenKind};
use crate::span::Span;
use crate::text::ascii_text;

verus! {

/// The operator characters of the lexical syntax.
pub open spec fn is_op_char(b: u8) -> bool {
    b == 43 || b == 45 || b == 42 || b == 47 || b == 37 || b == 60 || b == 62 || b == 61
        || b == 33 || b == 38 || b == 124 || b == 94 || b == 63 || b == 126 || b == 58 || b == 46
}

/// ASCII decimal digit.
pub open spec fn is_digit(b: u8) -> bool {
    48 <= b <= 57
}

/// ASCII lower-case letter.
pub open spec fn is_lower(b: u8) -> bool {
    97 <= b <= 122
}

/// ASCII upper-case letter.
pub open spec fn is_upper(b: u8) -> bool {
    65 <= b <= 90
}

/// Characters that may continue an identifier: letters, digits, `_`, `'`.
pub open spec fn is_ident_cont(b: u8) -> bool {
    is_digit(b) || is_lower(b) || is_upper(b) || b == 95 || b == 39
}

/// ASCII hexadecimal digit.
pub open spec fn is_hex_digit(b: u8) -> bool {
    is_digit(b) || 97 <= b <= 102 || 65 <= b <= 70
}

/// Value of a hexadecimal digit.
pub open spec fn hex_value(b: u8) -> int {
    if is_digit(b) {
        b - 48
    } else if 97 <= b <= 102 {
        b - 87
    } else {
        b - 55
    }
}

/// Number of bytes of the UTF-8 encoding that starts with `b`.
pub open spec fn utf8_len_spec(b: u8) -> int {
    if b < 0xC0 {
        1
    } else if b < 0xE0 {
        2
    } else if b < 0xF0 {
        3
    } else {
        4
    }
}

/// Every byte of `t` after the first continues an identifier.
pub open spec fn ident_tail(t: Seq<u8>) -> bool {
    forall|i: int| 1 <= i < t.len() ==> is_ident_cont(#[trigger] t[i])
}

/// A non-empty run of operator characters.
pub open spec fn op_run(t: Seq<u8>) -> bool {
    t.len() >= 1 && forall|i: int| 0 <= i < t.len() ==> is_op_char(#[trigger] t[i])
}

/// A digit followed by digits and `_` separators.
pub open spec fn int_run(t: Seq<u8>) -> bool {
    t.len() >= 1 && is_digit(t[0]) && forall|i: int|
        0 <= i < t.len() ==> is_digit(#[trigger] t[i]) || t[i] == 95
}

/// Decimal value of a digit run, `_` separators ignored.
pub open spec fn digits_value(t: Seq<u8>) -> int
    decreases t.len(),
{
    if t.len() == 0 {
        0
    } else if t.last() == 95 {
        digits_value(t.drop_last())
    } else {
        digits_value(t.drop_last()) * 10 + (t.last() - 48)
    }
}

/// The reserved word spelled by `t`, if any.
pub open spec fn keyword_kind(t: Seq<char>) -> Option<TokenKind> {
    if t == "module"@ {
        Some(TokenKind::Module)
    } else if t == "import"@ {
        Some(TokenKind::Import)
    } else if t == "hiding"@ {
        Some(TokenKind::Hiding)
    } else if t == "as"@ {
        Some(TokenKind::As)
    } else if t == "qualified"@ {
        Some(TokenKind::Qualified)
    } else if t == "export"@ {
        Some(TokenKind::Export)
    } else if t == "data"@ {
        Some(TokenKind::Data)
    } else if t == "type"@ {
        Some(TokenKind::Type)
    } else if t == "class"@ {
        Some(TokenKind::Class)
    } else if t == "instance"@ {
        Some(TokenKind::Instance)
    } else if t == "where"@ {
        Some(TokenKind::Where)
    } else if t == "let"@ {
        Some(TokenKind::Let)
    } else if t == "in"@ {
        Some(TokenKind::In)
    } else if t == "if"@ {
        Some(TokenKind::If)
    } else if t == "then"@ {
        Some(TokenKind::Then)
    } else if t == "else"@ {
        Some(TokenKind::Else)
    } else if t == "case"@ {
        Some(TokenKind::Case)
    } else if t == "of"@ {
        Some(TokenKind::Of)
    } else if t == "do"@ {
        Some(TokenKind::Do)
    } else if t == "forall"@ {
        Some(TokenKind::Forall)
    } else {
        None
    }
}

/// The reserved punctuation or table operator spelled by an operator
/// run, if any.
pub open spec fn op_kind(t: Seq<char>) -> Option<TokenKind> {
    if t == "="@ {
        Some(TokenKind::Equals)
    } else if t == "->"@ {
        Some(TokenKind::Arrow)
    } else if t == "=>"@ {
        Some(TokenKind::FatArrow)
    } else if t == "<-"@ {
        Some(TokenKind::LeftArrow)
    } else if t == "|"@ {
        Some(TokenKind::Bar)
    } else if t == ":"@ {
        Some(TokenKind::Colon)
    } else if t == "::"@ {
        Some(TokenKind::DoubleColon)
    } else if t == "."@ {
        Some(TokenKind::Dot)
    } else if t == ".."@ {
        Some(TokenKind::DotDot)
    } else if t == "+"@ {
        Some(TokenKind::Plus)
    } else if t == "-"@ {
        Some(TokenKind::Minus)
    } else if t == "*"@ {
        Some(TokenKind::Star)
    } else if t == "/"@ {
        Some(TokenKind::Slash)
    } else if t == "%"@ {
        Some(TokenKind::Percent)
    } else if t == "=="@ {
        Some(TokenKind::EqEq)
    } else if t == "/="@ {
        Some(TokenKind::SlashEq)
    } else if t == "<"@ {
        Some(TokenKind::Lt)
    } else if t == "<="@ {
        Some(TokenKind::LtEq)
    } else if t == ">"@ {
        Some(TokenKind::Gt)
    } else if t == ">="@ {
        Some(TokenKind::GtEq)
    } else if t == "&&"@ {
        Some(TokenKind::AndAnd)
    } else if t == "||"@ {
        Some(TokenKind::OrOr)
    } else if t == "++"@ {
        Some(TokenKind::PlusPlus)
    } else {
        None
    }
}

/// The single-byte punctuation token of `b`, if any.
pub open spec fn punct_kind(b: u8) -> Option<TokenKind> {
    if b == 40 {
        Some(TokenKind::LParen)
    } else if b == 41 {
        Some(TokenKind::RParen)
    } else if b == 91 {
        Some(TokenKind::LBracket)
    } else if b == 93 {
        Some(TokenKind::RBracket)
    } else if b == 123 {
        Some(TokenKind::LBrace)
    } else if b == 125 {
        Some(TokenKind::RBrace)
    } else if b == 44 {
        Some(TokenKind::Comma)
    } else if b == 59 {
        Some(TokenKind::Semicolon)
    } else if b == 92 {
        Some(TokenKind::Backslash)
    } else {
        None
    }
}

/// The token kind `k` is what the lexical syntax gives for the source
/// text `t` under it.
pub open spec fn kind_agrees(k: TokenKind, t: Seq<u8>) -> bool {
    match k {
        TokenKind::LowerIdent(s) => {
            &&& t.len() >= 1
            &&& (is_lower(t[0]) || (t[0] == 95 && t.len() >= 2))
            &&& ident_tail(t)
            &&& s@ == ascii_text(t)
            &&& keyword_kind(s@) is None
        },
        TokenKind::UpperIdent(s) => {
            &&& t.len() >= 1
            &&& is_upper(t[0])
            &&& ident_tail(t)
            &&& s@ == ascii_text(t)
        },
        TokenKind::Underscore => t == seq![95u8],
        TokenKind::Int(v) => int_run(t) && v == digits_value(t),
        TokenKind::Str(_) => t.len() >= 2 && t[0] == 34 && t.last() == 34,
        TokenKind::Op(s) => op_run(t) && s@ == ascii_text(t) && op_kind(s@) is None,
        TokenKind::Newline => t == seq![10u8],
        TokenKind::Indent(_) => t.len() == 0,
        TokenKind::Eof => t.len() == 0,
        _ => {
            ||| (t.len() == 1 && punct_kind(t[0]) == Some(k))
            ||| (op_run(t) && op_kind(ascii_text(t)) == Some(k))
            ||| (t.len() >= 1 && is_lower(t[0]) && ident_tail(t) && keyword_kind(ascii_text(t))
                == Some(k))
        },
    }
}

/// The source bytes under a span.
pub open spec fn text_at(src: Seq<u8>, s: Span) -> Seq<u8> {
    src.subrange(s.start as int, s.end as int)
}

/// Each of the tokens lies within the source, agrees with the source
/// text under it, and they come in source order, ending by `upto`.
pub open spec fn tokens_agree(src: Seq<u8>, toks: Seq<Token>, upto: int) -> bool {
    &&& forall|i: int|
        0 <= i < toks.len() ==> {
            &&& (#[trigger] toks[i]).span.start <= toks[i].span.end <= upto
            &&& kind_agrees(toks[i].kind, text_at(src, toks[i].span))
        }
    &&& forall|i: int, j: int|
        0 <= i < j < toks.len() ==> #[trigger] toks[i].span.end <= #[trigger] toks[j].span.start
}

/// A complete token stream for `src`: tokens that agree with the
/// source, in order, closed by an `Eof` at the end of the source.
pub open spec fn token_stream_of(src: Seq<u8>, toks: Seq<Token>) -> bool {
    &&& toks.len() >= 1
    &&& tokens_agree(src, toks, src.len() as int)
    &&& toks.last().kind == TokenKind::Eof
    &&& toks.last().span == Span { start: src.len() as usize, end: src.len() as usize }
    &&& forall|i: int| 0 <= i < toks.len() - 1 ==> (#[trigger] toks[i]).kind != TokenKind::Eof
}

/// Number of code points in a UTF-8 byte run: the bytes that are not
/// continuation bytes.
pub open spec fn code_points(t: Seq<u8>) -> nat
    decreases t.len(),
{
    if t.len() == 0 {
        0
    } else {
        code_points(t.drop_last()) + if 0x80 <= t.last() <= 0xbf {
            0nat
        } else {
            1nat
        }
    }
}

/// Offset of the byte after the last `\n` before `p`, or 0.
pub open spec fn line_begin(s: Seq<u8>, p: int) -> int
    decreases p,
{
    if p <= 0 {
        0
    } else if s[p - 1] == 10 {
        p
    } else {
        line_begin(s, p - 1)
    }
}

/// The code-point column of byte offset `p`: code points between the
/// start of its line and `p`.
pub open spec fn column_at(s: Seq<u8>, p: int) -> nat {
    code_points(s.subrange(line_begin(s, p), p))
}

} // verus!
