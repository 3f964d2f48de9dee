//! Byte classification and the small conversions the lexer makes.
use vstd::prelude::*;
use vstd::utf8::*;

use super::spec::{
    is_op_char, is_ident_cont, utf8_len_spec, keyword_kind, op_kind,
};
use super::token::TokenKind;
use crate::text::{ascii_text, replacement_char};

verus! {

/// Whether `b` is one of the operator characters.
pub fn is_op_char_byte(b: u8) -> (r: bool)
    ensures
        r == is_op_char(b),
{
    // + - * / % < > = ! & | ^ ? ~ : .
    b == 43 || b == 45 || b == 42 || b == 47 || b == 37 || b == 60 || b == 62 || b == 61 || b == 33
        || b == 38 || b == 124 || b == 94 || b == 63 || b == 126 || b == 58 || b == 46
}

/// Whether `b` may continue an identifier.
pub fn is_ident_cont_byte(b: u8) -> (r: bool)
    ensures
        r == is_ident_cont(b),
{
    // 0-9, a-z, A-Z, `_`, `'`
    (48 <= b && b <= 57) || (97 <= b && b <= 122) || (65 <= b && b <= 90) || b == 95 || b == 39
}

/// Byte length of the UTF-8 encoding whose lead byte is `b`.
pub fn utf8_len(b: u8) -> (r: usize)
    ensures
        r == utf8_len_spec(b),
        1 <= r <= 4,
{
    if b < 0xC0 {
        1
    } else if b < 0xE0 {
        2
    } else if b < 0xF0 {
        3
    } else {
        4
    }
}

/// Whether the string is exactly the given text.
pub fn text_is(t: &String, lit: &str) -> (r: bool)
    ensures
        r == (t@ == lit@),
{
    let l = String::from_str(lit);
    t.eq(&l)
}

/// The characters of the ASCII bytes `src[start..end]` as a string.
pub fn ascii_string(src: &[u8], start: usize, end: usize) -> (r: String)
    requires
        start <= end <= src@.len(),
    ensures
        r@ == ascii_text(src@.subrange(start as int, end as int)),
{
    let mut r = String::new();
    let mut i = start;
    while i < end
        invariant
            start <= i <= end <= src@.len(),
            r@ == ascii_text(src@.subrange(start as int, i as int)),
        decreases end - i,
    {
        let c = src[i] as char;
        r.push(c);
        i = i + 1;
        assert(src@.subrange(start as int, i as int) =~= src@.subrange(start as int, i - 1).push(
            src@[i - 1],
        ));
        assert(r@ =~= ascii_text(src@.subrange(start as int, i as int)));
    }
    r
}

/// The reserved word spelled by `t`, if any.
pub fn keyword_of(t: &String) -> (r: Option<TokenKind>)
    ensures
        r == keyword_kind(t@),
{
    if text_is(t, "module") {
        Some(TokenKind::Module)
    } else if text_is(t, "import") {
        Some(TokenKind::Import)
    } else if text_is(t, "hiding") {
        Some(TokenKind::Hiding)
    } else if text_is(t, "as") {
        Some(TokenKind::As)
    } else if text_is(t, "qualified") {
        Some(TokenKind::Qualified)
    } else if text_is(t, "export") {
        Some(TokenKind::Export)
    } else if text_is(t, "data") {
        Some(TokenKind::Data)
    } else if text_is(t, "type") {
        Some(TokenKind::Type)
    } else if text_is(t, "class") {
        Some(TokenKind::Class)
    } else if text_is(t, "instance") {
        Some(TokenKind::Instance)
    } else if text_is(t, "where") {
        Some(TokenKind::Where)
    } else if text_is(t, "let") {
        Some(TokenKind::Let)
    } else if text_is(t, "in") {
        Some(TokenKind::In)
    } else if text_is(t, "if") {
        Some(TokenKind::If)
    } else if text_is(t, "then") {
        Some(TokenKind::Then)
    } else if text_is(t, "else") {
        Some(TokenKind::Else)
    } else if text_is(t, "case") {
        Some(TokenKind::Case)
    } else if text_is(t, "of") {
        Some(TokenKind::Of)
    } else if text_is(t, "do") {
        Some(TokenKind::Do)
    } else if text_is(t, "forall") {
        Some(TokenKind::Forall)
    } else {
        None
    }
}

/// Map a maximal operator run to its token kind: reserved punctuation
/// and the table operators get their own kinds, every other run is `Op`.
pub fn classify_op_run(run: String) -> (r: TokenKind)
    ensures
        op_kind(run@) matches Some(k) ==> r == k,
        op_kind(run@) is None ==> r == TokenKind::Op(run),
{
    let t = &run;
    if text_is(t, "=") {
        TokenKind::Equals
    } else if text_is(t, "->") {
        TokenKind::Arrow
    } else if text_is(t, "=>") {
        TokenKind::FatArrow
    } else if text_is(t, "<-") {
        TokenKind::LeftArrow
    } else if text_is(t, "|") {
        TokenKind::Bar
    } else if text_is(t, ":") {
        TokenKind::Colon
    } else if text_is(t, "::") {
        TokenKind::DoubleColon
    } else if text_is(t, ".") {
        TokenKind::Dot
    } else if text_is(t, "..") {
        TokenKind::DotDot
    } else if text_is(t, "+") {
        TokenKind::Plus
    } else if text_is(t, "-") {
        TokenKind::Minus
    } else if text_is(t, "*") {
        TokenKind::Star
    } else if text_is(t, "/") {
        TokenKind::Slash
    } else if text_is(t, "%") {
        TokenKind::Percent
    } else if text_is(t, "==") {
        TokenKind::EqEq
    } else if text_is(t, "/=") {
        TokenKind::SlashEq
    } else if text_is(t, "<") {
        TokenKind::Lt
    } else if text_is(t, "<=") {
        TokenKind::LtEq
    } else if text_is(t, ">") {
        TokenKind::Gt
    } else if text_is(t, ">=") {
        TokenKind::GtEq
    } else if text_is(t, "&&") {
        TokenKind::AndAnd
    } else if text_is(t, "||") {
        TokenKind::OrOr
    } else if text_is(t, "++") {
        TokenKind::PlusPlus
    } else {
        TokenKind::Op(run)
    }
}

/// No reserved word starts with `_`.
pub proof fn lemma_keyword_not_underscore(t: Seq<char>)
    requires
        t.len() >= 1,
        t[0] == '_',
    ensures
        keyword_kind(t) is None,
{
    reveal_strlit("module");
    reveal_strlit("import");
    reveal_strlit("hiding");
    reveal_strlit("as");
    reveal_strlit("qualified");
    reveal_strlit("export");
    reveal_strlit("data");
    reveal_strlit("type");
    reveal_strlit("class");
    reveal_strlit("instance");
    reveal_strlit("where");
    reveal_strlit("let");
    reveal_strlit("in");
    reveal_strlit("if");
    reveal_strlit("then");
    reveal_strlit("else");
    reveal_strlit("case");
    reveal_strlit("of");
    reveal_strlit("do");
    reveal_strlit("forall");
}

/// Decode the code point whose encoding starts at `at`. When the bytes
/// there begin with a valid UTF-8 encoding of a scalar, that scalar and
/// its length come back; otherwise U+FFFD with length 1.
pub fn decode_utf8(bytes: &[u8], at: usize) -> (r: (char, usize))
    requires
        at < bytes@.len(),
    ensures
        valid_first_scalar(bytes@.skip(at as int)) ==> r.0 as u32 == decode_first_scalar(
            bytes@.skip(at as int),
        ) && r.1 == length_of_first_scalar(bytes@.skip(at as int)),
        !valid_first_scalar(bytes@.skip(at as int)) ==> r == (replacement_char(), 1usize),
        1 <= r.1 <= bytes@.len() - at,
{
    let ghost rest = bytes@.skip(at as int);
    let n = bytes.len() - at;
    let b1 = bytes[at];
    assert(rest[0] == b1);
    let mut cp: u32 = 0;
    let mut len: usize = 0;
    if b1 <= 0x7f {
        cp = (b1 & 0x7F) as u32;
        len = 1;
    } else if 0xc0 <= b1 && b1 <= 0xdf {
        if n >= 2 && 0x80 <= bytes[at + 1] && bytes[at + 1] <= 0xbf {
            let b2 = bytes[at + 1];
            assert(rest[1] == b2);
            cp = (((b1 & 0x1F) as u32) << 6) | ((b2 & 0x3f) as u32);
            len = 2;
        }
    } else if 0xe0 <= b1 && b1 <= 0xef {
        if n >= 3 && 0x80 <= bytes[at + 1] && bytes[at + 1] <= 0xbf && 0x80 <= bytes[at + 2]
            && bytes[at + 2] <= 0xbf {
            let b2 = bytes[at + 1];
            let b3 = bytes[at + 2];
            assert(rest[1] == b2 && rest[2] == b3);
            cp = (((b1 & 0x0F) as u32) << 12) | (((b2 & 0x3f) as u32) << 6) | ((b3
                & 0x3f) as u32);
            len = 3;
        }
    } else if 0xf0 <= b1 && b1 <= 0xf7 {
        if n >= 4 && 0x80 <= bytes[at + 1] && bytes[at + 1] <= 0xbf && 0x80 <= bytes[at + 2]
            && bytes[at + 2] <= 0xbf && 0x80 <= bytes[at + 3] && bytes[at + 3] <= 0xbf {
            let b2 = bytes[at + 1];
            let b3 = bytes[at + 2];
            let b4 = bytes[at + 3];
            assert(rest[1] == b2 && rest[2] == b3 && rest[3] == b4);
            cp = (((b1 & 0x07) as u32) << 18) | (((b2 & 0x3f) as u32) << 12) | (((b3
                & 0x3f) as u32) << 6) | ((b4 & 0x3f) as u32);
            len = 4;
        }
    }
    if len == 0 {
        assert(!valid_leading_and_continuation_bytes_first_codepoint(rest));
        return ('\u{FFFD}', 1);
    }
    assert(valid_leading_and_continuation_bytes_first_codepoint(rest));
    assert(cp == decode_first_codepoint(rest));
    assert(len == length_of_first_codepoint(rest));
    let overlong_ok = (len != 2 || 0x80 <= cp) && (len != 3 || 0x800 <= cp) && (len != 4 || (
    0x10000 <= cp && cp <= 0x10ffff));
    let surrogate = 0xD800 <= cp && cp <= 0xDFFF;
    if !overlong_ok || surrogate {
        return ('\u{FFFD}', 1);
    }
    assert(valid_first_scalar(rest));
    proof {
        lemma_valid_scalar_is_scalar(rest);
    }
    match char::from_u32(cp) {
        Some(c) => (c, len),
        None => ('\u{FFFD}', 1),
    }
}

/// A validly encoded first scalar is a Unicode scalar value.
proof fn lemma_valid_scalar_is_scalar(bytes: Seq<u8>)
    requires
        valid_first_scalar(bytes),
    ensures
        is_scalar(decode_first_scalar(bytes)),
{
    let cp = decode_first_scalar(bytes);
    let b0 = bytes[0];
    if is_leading_byte_width_1(b0) {
        assert(cp == (b0 & 0x7F) as u32);
        assert((b0 & 0x7F) as u32 <= 0x7f) by (bit_vector);
    } else if is_leading_byte_width_2(b0) {
        let b1 = bytes[1];
        assert(cp == (((b0 & 0x1F) as u32) << 6) | ((b1 & 0x3f) as u32));
        assert((((b0 & 0x1F) as u32) << 6) | ((b1 & 0x3f) as u32) <= 0x7ff) by (bit_vector);
    } else if is_leading_byte_width_3(b0) {
        let b1 = bytes[1];
        let b2 = bytes[2];
        assert(cp == (((b0 & 0x0F) as u32) << 12) | (((b1 & 0x3f) as u32) << 6) | ((b2
            & 0x3f) as u32));
        assert((((b0 & 0x0F) as u32) << 12) | (((b1 & 0x3f) as u32) << 6) | ((b2 & 0x3f) as u32)
            <= 0xffff) by (bit_vector);
    }
}

} // verus!
