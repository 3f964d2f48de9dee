//! Sapphire lexer.
//!
//! Produces a flat token stream from Sapphire source. Layout
//! processing (virtual `{`, `;`, `}`) is left to the layout pass; the
//! lexer emits `Newline` and `Indent` markers so that pass has what it
//! needs.
use vstd::prelude::*;
use vstd::string::StringSliceAdditionalSpecFns;
use vstd::utf8::{decode_first_scalar, valid_first_scalar};

pub mod error;
pub mod scan;
pub mod spec;
pub mod token;

pub use error::{LexError, LexErrorKind};
pub use token::{Span, Token, TokenKind};

use scan::{
    ascii_string, classify_op_run, decode_utf8, is_ident_cont_byte, is_op_char_byte, keyword_of,
    lemma_keyword_not_underscore, utf8_len,
};
use spec::{
    code_points, digits_value, hex_value, ident_tail, int_run, is_digit, is_hex_digit,
    is_ident_cont, is_lower, is_op_char, is_upper, keyword_kind, kind_agrees, line_begin, op_kind,
    op_run, punct_kind, text_at, token_stream_of, tokens_agree, utf8_len_spec,
};
use crate::text::{ascii_text, char_is_alphabetic};

verus! {

/// The error's span lies within a source of `n` bytes.
pub open spec fn error_within(e: LexError, n: int) -> bool {
    e.span.start <= e.span.end <= n
}

/// The source starts with a UTF-8 byte-order mark.
pub open spec fn starts_with_bom(s: Seq<u8>) -> bool {
    s.len() >= 3 && s[0] == 0xEF && s[1] == 0xBB && s[2] == 0xBF
}

/// A byte of the plain sublanguage: ASCII letters, spaces, line feeds
/// and the brackets, commas and semicolons that are tokens by themselves.
pub open spec fn plain_byte(b: u8) -> bool {
    b == 32 || b == 10 || (97 <= b && b <= 122) || (65 <= b && b <= 90) || b == 40 || b == 41 || b == 91
        || b == 93 || b == 44 || b == 59
}

/// The character a one-letter escape `\X` stands for, by the byte `X`:
/// `\n`, `\t`, `\r`, `\\` and `\"`.
pub open spec fn escaped_char(c: u8) -> Option<char> {
    if c == 110 {
        Some('\n')
    } else if c == 116 {
        Some('\t')
    } else if c == 114 {
        Some('\r')
    } else if c == 92 {
        Some('\\')
    } else if c == 34 {
        Some('"')
    } else {
        None
    }
}

/// Different escapes stand for different characters: a string literal
/// decodes without confusing one escape with another.
pub proof fn lemma_escapes_distinct(c1: u8, c2: u8)
    requires
        escaped_char(c1) is Some,
        escaped_char(c2) is Some,
        c1 != c2,
    ensures
        escaped_char(c1) != escaped_char(c2),
{
}

/// An escaped quote or backslash stands for itself, and an escaped
/// letter stands for an ASCII control character (a code below 32), not
/// for a printable one.
pub proof fn lemma_escape_kinds(c: u8)
    requires
        escaped_char(c) is Some,
    ensures
        (c == 34 || c == 92) ==> escaped_char(c)->0 as u32 == c as u32,
        (97 <= c <= 122) ==> (escaped_char(c)->0 as u32) < 32,
        escaped_char(c)->0 as u32 != c as u32 ==> (97 <= c <= 122),
{
}

/// The letter escapes stand for the characters whose bytes the lexer
/// itself reads as a tab (9), a line end (10) and a carriage return (13).
pub proof fn lemma_escape_codes_match_layout_bytes()
    ensures
        escaped_char(116)->0 as u32 == 9,
        escaped_char(110)->0 as u32 == 10,
        escaped_char(114)->0 as u32 == 13,
{
}

/// A source made of plain bytes only: identifiers, keywords and simple
/// punctuation laid out with spaces and line feeds. Every such source
/// follows the lexical rules.
pub open spec fn plain_source(s: Seq<u8>) -> bool {
    forall|i: int| 0 <= i < s.len() ==> plain_byte(#[trigger] s[i])
}

/// Lex the whole input into a flat token vector ending in `Eof`.
///
/// On success the tokens agree with the source text under them (see
/// `kind_agrees`), come in source order, and end with an `Eof` at the
/// end of the source.
pub fn tokenize(source: &str) -> (r: Result<Vec<Token>, LexError>)
    ensures
        r matches Ok(t) ==> token_stream_of(source.spec_bytes(), t@),
        r matches Err(e) ==> error_within(e, source.spec_bytes().len() as int),
        plain_source(source.spec_bytes()) ==> r is Ok,
{
    let mut lexer = Lexer::new(source);
    lexer.run()
}

/// Hand-written lexer over the source bytes.
pub struct Lexer<'a> {
    src: &'a [u8],
    pos: usize,
    at_line_start: bool,
}

enum LineStart {
    Eof,
    Blank,
    Token { indent_col: usize },
}

impl<'a> Lexer<'a> {
    /// The bytes being lexed.
    pub closed spec fn source(&self) -> Seq<u8> {
        self.src@
    }

    /// The current byte offset.
    pub closed spec fn position(&self) -> int {
        self.pos as int
    }

    /// The offset lies within the source.
    pub closed spec fn wf(&self) -> bool {
        self.pos <= self.src@.len() <= usize::MAX
    }

    /// A fresh lexer over `source`, past a leading byte-order mark.
    pub fn new(source: &'a str) -> (r: Self)
        ensures
            r.wf(),
            r.source() == source.spec_bytes(),
            r.position() == if starts_with_bom(source.spec_bytes()) {
                3int
            } else {
                0int
            },
    {
        let src = source.as_bytes();
        let pos = if src.len() >= 3 && src[0] == 0xEF && src[1] == 0xBB && src[2] == 0xBF {
            3
        } else {
            0
        };
        Lexer { src, pos, at_line_start: true }
    }

    /// Drive the lexer to completion.
    pub fn run(&mut self) -> (r: Result<Vec<Token>, LexError>)
        requires
            old(self).wf(),
        ensures
            final(self).source() == old(self).source(),
            r matches Ok(t) ==> token_stream_of(old(self).source(), t@) && (forall|i: int|
                0 <= i < t@.len() ==> old(self).position() <= (#[trigger] t@[i]).span.start),
            r matches Err(e) ==> error_within(e, old(self).source().len() as int),
            plain_source(old(self).source()) ==> r is Ok,
    {
        let ghost start = self.pos as int;
        let mut out: Vec<Token> = Vec::new();
        loop
            invariant
                self.wf(),
                self.src@ == old(self).src@,
                start <= self.pos,
                start == old(self).pos,
                tokens_agree(self.src@, out@, self.pos as int),
                forall|i: int| 0 <= i < out@.len() ==> start <= (#[trigger] out@[i]).span.start,
                forall|i: int| 0 <= i < out@.len() ==> (#[trigger] out@[i]).kind != TokenKind::Eof,
            decreases self.src@.len() - self.pos,
        {
            let ghost p0 = self.pos;
            if self.at_line_start {
                match self.scan_line_start() {
                    Err(e) => return Err(e),
                    Ok(LineStart::Eof) => {
                        let ghost old_out = out@;
                        let t = Token::new(TokenKind::Eof, self.here());
                        proof { self.lemma_push_ok(out@, t); }
                        out.push(t);
                        proof {
            self.lemma_stream_done(out@);
            assert forall|i: int| 0 <= i < out@.len() implies start <= (#[trigger] out@[i]).span.start by {
                if i < out@.len() - 1 { assert(out@[i] == old_out[i]); }
            }
        }
                        return Ok(out);
                    },
                    Ok(LineStart::Blank) => {
                        let t = Token::new(TokenKind::Newline, self.prev_newline_span());
                        proof {
                            assert(text_at(self.src@, t.span) =~= seq![10u8]);
                            self.lemma_push_ok(out@, t);
                        }
                        out.push(t);
                        continue ;
                    },
                    Ok(LineStart::Token { indent_col }) => {
                        let t = Token::new(TokenKind::Indent(indent_col), self.here());
                        proof { self.lemma_push_ok(out@, t); }
                        out.push(t);
                        self.at_line_start = false;
                    },
                }
            }
            match self.skip_inline_trivia() {
                Err(e) => return Err(e),
                Ok(true) => {
                    let t = Token::new(TokenKind::Newline, self.prev_newline_span());
                    proof {
                        assert(text_at(self.src@, t.span) =~= seq![10u8]);
                        self.lemma_push_ok(out@, t);
                    }
                    out.push(t);
                    self.at_line_start = true;
                    continue ;
                },
                Ok(false) => {},
            }
            if self.pos >= self.src.len() {
                let ghost old_out = out@;
                let t = Token::new(TokenKind::Eof, self.here());
                proof { self.lemma_push_ok(out@, t); }
                out.push(t);
                proof {
            self.lemma_stream_done(out@);
            assert forall|i: int| 0 <= i < out@.len() implies start <= (#[trigger] out@[i]).span.start by {
                if i < out@.len() - 1 { assert(out@[i] == old_out[i]); }
            }
        }
                return Ok(out);
            }
            match self.scan_token() {
                Err(e) => return Err(e),
                Ok(tok) => {
                    proof { self.lemma_push_ok(out@, tok); }
                    out.push(tok);
                },
            }
            assert(self.pos > p0);
        }
    }

    /// Tokens that agree up to the end of the source and close with an
    /// `Eof` at the end, with no `Eof` before, form a token stream.
    proof fn lemma_stream_done(&self, toks: Seq<Token>)
        requires
            self.wf(),
            self.pos == self.src@.len(),
            toks.len() >= 1,
            tokens_agree(self.src@, toks, self.pos as int),
            toks.last().kind == TokenKind::Eof,
            toks.last().span.start == self.pos,
            toks.last().span.end == self.pos,
            forall|i: int| 0 <= i < toks.len() - 1 ==> (#[trigger] toks[i]).kind != TokenKind::Eof,
        ensures
            token_stream_of(self.src@, toks),
    {
    }

    /// Appending a token that agrees with the source and starts no
    /// earlier than every earlier token ends keeps the tokens in order.
    proof fn lemma_push_ok(&self, toks: Seq<Token>, t: Token)
        requires
            self.wf(),
            tokens_agree(self.src@, toks, t.span.start as int),
            t.span.start <= t.span.end <= self.pos,
            kind_agrees(t.kind, text_at(self.src@, t.span)),
        ensures
            tokens_agree(self.src@, toks.push(t), self.pos as int),
    {
        let s = toks.push(t);
        assert forall|i: int, j: int| 0 <= i < j < s.len() implies #[trigger] s[i].span.end
            <= #[trigger] s[j].span.start by {
            if j == toks.len() {
                assert(s[i] == toks[i]);
            } else {
                assert(s[i] == toks[i] && s[j] == toks[j]);
            }
        }
        assert forall|i: int| 0 <= i < s.len() implies {
            &&& (#[trigger] s[i]).span.start <= s[i].span.end <= self.pos
            &&& kind_agrees(s[i].kind, text_at(self.src@, s[i].span))
        } by {
            if i < toks.len() {
                assert(s[i] == toks[i]);
            }
        }
    }

    // ---------------------------------------------------------------
    //  Helpers
    // ---------------------------------------------------------------

    /// The byte at `i`, or 0 past the end.
    fn byte_or_zero(&self, i: usize) -> (r: u8)
        ensures
            r == if i < self.src@.len() {
                self.src@[i as int]
            } else {
                0u8
            },
    {
        if i < self.src.len() {
            self.src[i]
        } else {
            0
        }
    }

    fn here(&self) -> (r: Span)
        ensures
            r.start == self.pos && r.end == self.pos,
    {
        Span::new(self.pos, self.pos)
    }

    fn prev_newline_span(&self) -> (r: Span)
        ensures
            r.start == if self.pos >= 1 {
                (self.pos - 1) as usize
            } else {
                0usize
            },
            r.end == self.pos,
    {
        let s = if self.pos >= 1 {
            self.pos - 1
        } else {
            0
        };
        Span::new(s, self.pos)
    }

    fn slice(&self, span: Span) -> (r: String)
        requires
            span.start <= span.end <= self.src@.len(),
        ensures
            r@ == ascii_text(text_at(self.src@, span)),
    {
        ascii_string(self.src, span.start, span.end)
    }

    /// Number of code points between the start of the current line and
    /// the current position.
    fn column_since_line_start(&self) -> (r: usize)
        requires
            self.wf(),
        ensures
            r == code_points(self.src@.subrange(line_begin(self.src@, self.pos as int), self.pos as int)),
    {
        let mut ls = self.pos;
        while ls > 0 && self.src[ls - 1] != 10
            invariant
                ls <= self.pos <= self.src@.len(),
                line_begin(self.src@, ls as int) == line_begin(self.src@, self.pos as int),
            decreases ls,
        {
            ls = ls - 1;
        }
        let mut count: usize = 0;
        let mut i = ls;
        while i < self.pos
            invariant
                ls <= i <= self.pos <= self.src@.len(),
                count == code_points(self.src@.subrange(ls as int, i as int)),
                count <= i - ls,
            decreases self.pos - i,
        {
            let b = self.src[i];
            assert(self.src@.subrange(ls as int, i + 1).drop_last() =~= self.src@.subrange(
                ls as int,
                i as int,
            ));
            if !(0x80 <= b && b <= 0xbf) {
                count = count + 1;
            }
            i = i + 1;
        }
        count
    }

    // ---------------------------------------------------------------
    //  Line-start handling
    // ---------------------------------------------------------------

    fn scan_line_start(&mut self) -> (r: Result<LineStart, LexError>)
        requires
            old(self).wf(),
        ensures
            final(self).wf(),
            final(self).src@ == old(self).src@,
            final(self).at_line_start == old(self).at_line_start,
            old(self).pos <= final(self).pos,
            r matches Ok(LineStart::Eof) ==> final(self).pos == final(self).src@.len(),
            r matches Ok(LineStart::Blank) ==> old(self).pos < final(self).pos
                && final(self).src@[final(self).pos - 1] == 10,
            r matches Ok(LineStart::Token { .. }) ==> final(self).pos < final(self).src@.len(),
            r matches Err(e) ==> error_within(e, old(self).src@.len() as int),
            plain_source(old(self).src@) ==> r is Ok,
    {
        let mut col: usize = 0;
        loop
            invariant
                self.wf(),
                self.src@ == old(self).src@,
                self.at_line_start == old(self).at_line_start,
                old(self).pos <= self.pos,
                col <= self.pos,
            decreases self.src@.len() - self.pos,
        {
            if self.pos >= self.src.len() {
                return Ok(LineStart::Eof);
            }
            let c = self.src[self.pos];
            if c == 32 {
                // ` `
                self.pos = self.pos + 1;
                col = col + 1;
            } else if c == 9 {
                // `\t`
                return Err(
                    LexError::new(
                        LexErrorKind::TabInLayoutPosition,
                        Span::new(self.pos, self.pos + 1),
                    ),
                );
            } else if c == 13 {
                // `\r`: CRLF is a line end, a bare CR an error.
                if self.byte_or_zero(self.pos + 1) == 10 {
                    self.pos = self.pos + 2;
                    return Ok(LineStart::Blank);
                }
                return Err(
                    LexError::new(
                        LexErrorKind::BareCarriageReturn,
                        Span::new(self.pos, self.pos + 1),
                    ),
                );
            } else if c == 10 {
                self.pos = self.pos + 1;
                return Ok(LineStart::Blank);
            } else if c == 45 && self.byte_or_zero(self.pos + 1) == 45 && !is_op_char_byte(
                self.byte_or_zero(self.pos + 2),
            ) {
                // `--` line comment: runs to the end of the line.
                self.skip_line_comment();
            } else if c == 123 && self.byte_or_zero(self.pos + 1) == 45 {
                // `{-` block comment: whitespace that may span lines.
                match self.skip_block_comment() {
                    Err(e) => return Err(e),
                    Ok(()) => {},
                }
                col = self.column_since_line_start();
                proof {
                    lemma_code_points_bound(
                        self.src@.subrange(line_begin(self.src@, self.pos as int), self.pos as int),
                    );
                    lemma_line_begin_bound(self.src@, self.pos as int);
                }
            } else {
                return Ok(LineStart::Token { indent_col: col });
            }
        }
    }

    // ---------------------------------------------------------------
    //  Inline trivia
    // ---------------------------------------------------------------

    /// Skip whitespace and comments within a logical line; `true` when a
    /// newline was consumed, `false` at the end of the source or at a byte
    /// that starts neither whitespace nor a comment.
    fn skip_inline_trivia(&mut self) -> (r: Result<bool, LexError>)
        requires
            old(self).wf(),
        ensures
            final(self).wf(),
            final(self).src@ == old(self).src@,
            final(self).at_line_start == old(self).at_line_start,
            old(self).pos <= final(self).pos,
            r matches Ok(true) ==> old(self).pos < final(self).pos && final(self).src@[final(self).pos - 1] == 10,
            r matches Ok(false) ==> final(self).pos >= final(self).src@.len() || inline_trivia_stops(
                final(self).src@,
                final(self).pos as int,
            ),
            r matches Err(e) ==> error_within(e, old(self).src@.len() as int),
            plain_source(old(self).src@) ==> r is Ok,
    {
        loop
            invariant
                self.wf(),
                self.src@ == old(self).src@,
                self.at_line_start == old(self).at_line_start,
                old(self).pos <= self.pos,
            decreases self.src@.len() - self.pos,
        {
            if self.pos >= self.src.len() {
                return Ok(false);
            }
            let c = self.src[self.pos];
            if c == 32 || c == 9 {
                self.pos = self.pos + 1;
            } else if c == 13 {
                if self.byte_or_zero(self.pos + 1) == 10 {
                    self.pos = self.pos + 2;
                    return Ok(true);
                }
                return Err(
                    LexError::new(
                        LexErrorKind::BareCarriageReturn,
                        Span::new(self.pos, self.pos + 1),
                    ),
                );
            } else if c == 10 {
                self.pos = self.pos + 1;
                return Ok(true);
            } else if c == 45 && self.byte_or_zero(self.pos + 1) == 45 && !is_op_char_byte(
                self.byte_or_zero(self.pos + 2),
            ) {
                self.skip_line_comment();
            } else if c == 123 && self.byte_or_zero(self.pos + 1) == 45 {
                match self.skip_block_comment() {
                    Err(e) => return Err(e),
                    Ok(()) => {},
                }
            } else {
                return Ok(false);
            }
        }
    }

    /// Skip a `--` comment up to, not including, the line end.
    fn skip_line_comment(&mut self)
        requires
            old(self).wf(),
            old(self).pos + 2 <= old(self).src@.len(),
        ensures
            final(self).wf(),
            final(self).src@ == old(self).src@,
            final(self).at_line_start == old(self).at_line_start,
            old(self).pos + 2 <= final(self).pos,
    {
        self.pos = self.pos + 2;
        while self.pos < self.src.len()
            invariant
                self.wf(),
                self.src@ == old(self).src@,
                self.at_line_start == old(self).at_line_start,
                old(self).pos + 2 <= self.pos,
            decreases self.src@.len() - self.pos,
        {
            let c = self.src[self.pos];
            if c == 10 || c == 13 {
                break ;
            }
            // Whole code points; on UTF-8 input a lead byte's length never
            // runs past the end, the bound only keeps the offset in range.
            let n = utf8_len(c);
            if n <= self.src.len() - self.pos {
                self.pos = self.pos + n;
            } else {
                self.pos = self.src.len();
            }
        }
    }

    /// Skip a (nested) `{- ... -}` comment.
    fn skip_block_comment(&mut self) -> (r: Result<(), LexError>)
        requires
            old(self).wf(),
            old(self).pos + 2 <= old(self).src@.len(),
        ensures
            final(self).wf(),
            final(self).src@ == old(self).src@,
            final(self).at_line_start == old(self).at_line_start,
            old(self).pos + 2 <= final(self).pos,
            r matches Err(e) ==> error_within(e, old(self).src@.len() as int),
    {
        let start = self.pos;
        self.pos = self.pos + 2;
        let mut depth: usize = 1;
        while depth > 0
            invariant
                self.wf(),
                self.src@ == old(self).src@,
                self.at_line_start == old(self).at_line_start,
                start + 2 <= self.pos,
                start == old(self).pos,
                depth <= self.pos,
            decreases self.src@.len() - self.pos, depth,
        {
            if self.pos >= self.src.len() {
                return Err(
                    LexError::new(
                        LexErrorKind::UnterminatedBlockComment,
                        Span::new(start, self.src.len()),
                    ),
                );
            }
            let c = self.src[self.pos];
            if c == 123 && self.byte_or_zero(self.pos + 1) == 45 {
                depth = depth + 1;
                self.pos = self.pos + 2;
            } else if c == 45 && self.byte_or_zero(self.pos + 1) == 125 {
                depth = depth - 1;
                self.pos = self.pos + 2;
            } else if c == 13 {
                if self.byte_or_zero(self.pos + 1) == 10 {
                    self.pos = self.pos + 2;
                } else {
                    return Err(
                        LexError::new(
                            LexErrorKind::BareCarriageReturn,
                            Span::new(self.pos, self.pos + 1),
                        ),
                    );
                }
            } else {
                let n = utf8_len(c);
                if n <= self.src.len() - self.pos {
                    self.pos = self.pos + n;
                } else {
                    self.pos = self.src.len();
                }
            }
        }
        Ok(())
    }
}

/// The code-point count of a byte run is at most its length.
proof fn lemma_code_points_bound(t: Seq<u8>)
    ensures
        code_points(t) <= t.len(),
    decreases t.len(),
{
    if t.len() > 0 {
        lemma_code_points_bound(t.drop_last());
    }
}

/// The start of the line containing `p` lies between 0 and `p`.
proof fn lemma_line_begin_bound(s: Seq<u8>, p: int)
    requires
        0 <= p <= s.len(),
    ensures
        0 <= line_begin(s, p) <= p,
    decreases p,
{
    if p > 0 && s[p - 1] != 10 {
        lemma_line_begin_bound(s, p - 1);
    }
}


impl<'a> Lexer<'a> {
    // ---------------------------------------------------------------
    //  Token scanning
    // ---------------------------------------------------------------

    /// Scan one token starting at the current position.
    fn scan_token(&mut self) -> (r: Result<Token, LexError>)
        requires
            old(self).wf(),
            old(self).pos < old(self).src@.len(),
        ensures
            final(self).wf(),
            final(self).src@ == old(self).src@,
            final(self).at_line_start == old(self).at_line_start,
            r matches Ok(t) ==> {
                &&& t.span.start == old(self).pos
                &&& t.span.end == final(self).pos
                &&& old(self).pos < final(self).pos
                &&& kind_agrees(t.kind, text_at(final(self).src@, t.span))
            },
            r matches Err(e) ==> error_within(e, old(self).src@.len() as int),
            plain_source(old(self).src@) && inline_trivia_stops(old(self).src@, old(self).pos as int) ==> r is Ok,
    {
        let start = self.pos;
        let c = self.src[self.pos];
        if c == 40 {
            self.punct1(TokenKind::LParen)
        } else if c == 41 {
            self.punct1(TokenKind::RParen)
        } else if c == 91 {
            self.punct1(TokenKind::LBracket)
        } else if c == 93 {
            self.punct1(TokenKind::RBracket)
        } else if c == 123 {
            self.punct1(TokenKind::LBrace)
        } else if c == 125 {
            self.punct1(TokenKind::RBrace)
        } else if c == 44 {
            self.punct1(TokenKind::Comma)
        } else if c == 59 {
            self.punct1(TokenKind::Semicolon)
        } else if c == 92 {
            self.punct1(TokenKind::Backslash)
        } else if c == 34 {
            self.scan_string()
        } else if 48 <= c && c <= 57 {
            self.scan_int()
        } else if c == 95 {
            self.scan_underscore_or_ident()
        } else if 97 <= c && c <= 122 {
            self.scan_lower_ident()
        } else if 65 <= c && c <= 90 {
            self.scan_upper_ident()
        } else if is_op_char_byte(c) {
            self.scan_op_run()
        } else {
            // Unknown byte: report the whole code point.
            let (ch, ch_len) = decode_utf8(self.src, self.pos);
            let span = Span::new(start, start + ch_len);
            let kind = if !((ch as u32) < 128) && (char_is_alphabetic(ch) || ch == '_') {
                LexErrorKind::NonAsciiIdentStart
            } else {
                LexErrorKind::UnexpectedChar(ch)
            };
            Err(LexError::new(kind, span))
        }
    }

    fn punct1(&mut self, kind: TokenKind) -> (r: Result<Token, LexError>)
        requires
            old(self).wf(),
            old(self).pos < old(self).src@.len(),
            punct_kind(old(self).src@[old(self).pos as int]) == Some(kind),
        ensures
            final(self).wf(),
            final(self).src@ == old(self).src@,
            final(self).at_line_start == old(self).at_line_start,
            final(self).pos == old(self).pos + 1,
            r matches Ok(t) && t.kind == kind && t.span.start == old(self).pos && t.span.end
                == final(self).pos && kind_agrees(t.kind, text_at(final(self).src@, t.span)),
    {
        let start = self.pos;
        self.pos = self.pos + 1;
        let ghost t = text_at(self.src@, Span { start, end: self.pos });
        assert(t.len() == 1 && t[0] == self.src@[start as int]);
        assert(kind is LParen || kind is RParen || kind is LBracket || kind is RBracket
            || kind is LBrace || kind is RBrace || kind is Comma || kind is Semicolon
            || kind is Backslash);
        Ok(Token::new(kind, Span::new(start, self.pos)))
    }

    /// Advance over identifier-continuation bytes.
    fn skip_ident_tail(&mut self, start: usize)
        requires
            old(self).wf(),
            start + 1 == old(self).pos,
        ensures
            final(self).wf(),
            final(self).src@ == old(self).src@,
            final(self).at_line_start == old(self).at_line_start,
            old(self).pos <= final(self).pos,
            ident_tail(final(self).src@.subrange(start as int, final(self).pos as int)),
            final(self).pos == final(self).src@.len() || !is_ident_cont(
                final(self).src@[final(self).pos as int],
            ),
    {
        while self.pos < self.src.len() && is_ident_cont_byte(self.src[self.pos])
            invariant
                self.wf(),
                self.src@ == old(self).src@,
                self.at_line_start == old(self).at_line_start,
                old(self).pos <= self.pos,
                forall|i: int| start < i < self.pos ==> is_ident_cont(#[trigger] self.src@[i]),
            decreases self.src@.len() - self.pos,
        {
            self.pos = self.pos + 1;
        }
        assert forall|i: int|
            1 <= i < self.pos - start implies is_ident_cont(
            #[trigger] self.src@.subrange(start as int, self.pos as int)[i],
        ) by {
            assert(self.src@.subrange(start as int, self.pos as int)[i] == self.src@[start + i]);
        }
    }

    fn scan_underscore_or_ident(&mut self) -> (r: Result<Token, LexError>)
        requires
            old(self).wf(),
            old(self).pos < old(self).src@.len(),
            old(self).src@[old(self).pos as int] == 95,
        ensures
            final(self).wf(),
            final(self).src@ == old(self).src@,
            final(self).at_line_start == old(self).at_line_start,
            r matches Ok(t) && t.span.start == old(self).pos && t.span.end == final(self).pos
                && old(self).pos < final(self).pos && kind_agrees(
                t.kind,
                text_at(final(self).src@, t.span),
            ),
    {
        let start = self.pos;
        self.pos = self.pos + 1;
        if self.pos < self.src.len() && is_ident_cont_byte(self.src[self.pos]) {
            self.skip_ident_tail(start);
            let span = Span::new(start, self.pos);
            let text = self.slice(span);
            proof {
                let t = text_at(self.src@, span);
                assert(t[0] == 95u8);
                assert(t[1] == self.src@[start + 1]);
                assert(text@[0] == '_');
                lemma_keyword_not_underscore(text@);
            }
            return Ok(Token::new(TokenKind::LowerIdent(text), span));
        }
        let span = Span::new(start, self.pos);
        assert(text_at(self.src@, span) =~= seq![95u8]);
        Ok(Token::new(TokenKind::Underscore, span))
    }

    fn scan_lower_ident(&mut self) -> (r: Result<Token, LexError>)
        requires
            old(self).wf(),
            old(self).pos < old(self).src@.len(),
            is_lower(old(self).src@[old(self).pos as int]),
        ensures
            final(self).wf(),
            final(self).src@ == old(self).src@,
            final(self).at_line_start == old(self).at_line_start,
            r matches Ok(t) && t.span.start == old(self).pos && t.span.end == final(self).pos
                && old(self).pos < final(self).pos && kind_agrees(
                t.kind,
                text_at(final(self).src@, t.span),
            ),
    {
        let start = self.pos;
        self.pos = self.pos + 1;
        self.skip_ident_tail(start);
        let span = Span::new(start, self.pos);
        let text = self.slice(span);
        let kind = match keyword_of(&text) {
            Some(k) => k,
            None => TokenKind::LowerIdent(text),
        };
        Ok(Token::new(kind, span))
    }

    fn scan_upper_ident(&mut self) -> (r: Result<Token, LexError>)
        requires
            old(self).wf(),
            old(self).pos < old(self).src@.len(),
            is_upper(old(self).src@[old(self).pos as int]),
        ensures
            final(self).wf(),
            final(self).src@ == old(self).src@,
            final(self).at_line_start == old(self).at_line_start,
            r matches Ok(t) && t.span.start == old(self).pos && t.span.end == final(self).pos
                && old(self).pos < final(self).pos && kind_agrees(
                t.kind,
                text_at(final(self).src@, t.span),
            ),
    {
        let start = self.pos;
        self.pos = self.pos + 1;
        self.skip_ident_tail(start);
        let span = Span::new(start, self.pos);
        let text = self.slice(span);
        Ok(Token::new(TokenKind::UpperIdent(text), span))
    }

    fn scan_op_run(&mut self) -> (r: Result<Token, LexError>)
        requires
            old(self).wf(),
            old(self).pos < old(self).src@.len(),
            is_op_char(old(self).src@[old(self).pos as int]),
        ensures
            final(self).wf(),
            final(self).src@ == old(self).src@,
            final(self).at_line_start == old(self).at_line_start,
            r matches Ok(t) && t.span.start == old(self).pos && t.span.end == final(self).pos
                && old(self).pos < final(self).pos && kind_agrees(
                t.kind,
                text_at(final(self).src@, t.span),
            ),
    {
        let start = self.pos;
        while self.pos < self.src.len() && is_op_char_byte(self.src[self.pos])
            invariant
                self.wf(),
                self.src@ == old(self).src@,
                self.at_line_start == old(self).at_line_start,
                start == old(self).pos,
                start <= self.pos,
                forall|i: int| start <= i < self.pos ==> is_op_char(#[trigger] self.src@[i]),
            decreases self.src@.len() - self.pos,
        {
            self.pos = self.pos + 1;
        }
        let span = Span::new(start, self.pos);
        let text = self.slice(span);
        let kind = classify_op_run(text);
        proof {
            let t = text_at(self.src@, span);
            assert forall|i: int| 0 <= i < t.len() implies is_op_char(#[trigger] t[i]) by {
                assert(t[i] == self.src@[start + i]);
            }
        }
        Ok(Token::new(kind, span))
    }

    // ---------- Integer literals -----------------------------------

    fn scan_int(&mut self) -> (r: Result<Token, LexError>)
        requires
            old(self).wf(),
            old(self).pos < old(self).src@.len(),
            is_digit(old(self).src@[old(self).pos as int]),
        ensures
            final(self).wf(),
            final(self).src@ == old(self).src@,
            final(self).at_line_start == old(self).at_line_start,
            r matches Ok(t) ==> t.span.start == old(self).pos && t.span.end == final(self).pos
                && old(self).pos < final(self).pos && kind_agrees(
                t.kind,
                text_at(final(self).src@, t.span),
            ),
            r matches Err(e) ==> error_within(e, old(self).src@.len() as int),
    {
        let start = self.pos;
        let mut value: i64 = (self.src[self.pos] - 48) as i64;
        let mut overflow = false;
        let mut ndigits: usize = 1;
        self.pos = self.pos + 1;
        proof {
            let t = self.src@.subrange(start as int, self.pos as int);
            assert(t.drop_last() =~= Seq::<u8>::empty());
            assert(t.last() == self.src@[start as int]);
            assert(digits_value(t.drop_last()) == 0);
            assert(t[0] == self.src@[start as int]);
        }
        while self.pos < self.src.len()
            invariant
                self.wf(),
                self.src@ == old(self).src@,
                self.at_line_start == old(self).at_line_start,
                start == old(self).pos,
                start < self.pos,
                ndigits >= 1,
                ndigits <= self.pos - start,
                int_run(self.src@.subrange(start as int, self.pos as int)),
                !overflow ==> value == digits_value(self.src@.subrange(start as int, self.pos as int)),
                overflow ==> digits_value(self.src@.subrange(start as int, self.pos as int))
                    > i64::MAX,
                value >= 0,
            decreases self.src@.len() - self.pos,
        {
            let c = self.src[self.pos];
            let ghost prev = self.src@.subrange(start as int, self.pos as int);
            if 48 <= c && c <= 57 {
                let d = (c - 48) as i64;
                if !overflow {
                    if value > (i64::MAX - d) / 10 {
                        overflow = true;
                    } else {
                        value = value * 10 + d;
                    }
                }
                ndigits = ndigits + 1;
                self.pos = self.pos + 1;
            } else if c == 95 {
                self.pos = self.pos + 1;
            } else {
                break ;
            }
            proof {
                let cur = self.src@.subrange(start as int, self.pos as int);
                assert(cur.drop_last() =~= prev);
                assert(cur.last() == c);
                assert(digits_value(prev) >= 0) by {
                    lemma_digits_value_nonneg(prev);
                }
                assert forall|i: int| 0 <= i < cur.len() implies is_digit(#[trigger] cur[i])
                    || cur[i] == 95 by {
                    if i < prev.len() {
                        assert(cur[i] == prev[i]);
                    }
                }
                assert(cur[0] == prev[0]);
            }
        }
        let span = Span::new(start, self.pos);
        if ndigits == 0 {
            return Err(LexError::new(LexErrorKind::MalformedIntLiteral, span));
        }
        if overflow {
            return Err(LexError::new(LexErrorKind::IntegerOverflow, span));
        }
        Ok(Token::new(TokenKind::Int(value), span))
    }

    // ---------- String literals ------------------------------------

    fn scan_string(&mut self) -> (r: Result<Token, LexError>)
        requires
            old(self).wf(),
            old(self).pos < old(self).src@.len(),
            old(self).src@[old(self).pos as int] == 34,
        ensures
            final(self).wf(),
            final(self).src@ == old(self).src@,
            final(self).at_line_start == old(self).at_line_start,
            r matches Ok(t) ==> t.span.start == old(self).pos && t.span.end == final(self).pos
                && old(self).pos < final(self).pos && kind_agrees(
                t.kind,
                text_at(final(self).src@, t.span),
            ),
            r matches Err(e) ==> error_within(e, old(self).src@.len() as int),
    {
        let start = self.pos;
        if self.byte_or_zero(start + 1) == 34 && self.byte_or_zero(start + 2) == 34 {
            return self.scan_triple_string();
        }
        self.pos = self.pos + 1;
        let mut buf = String::new();
        loop
            invariant
                self.wf(),
                self.src@ == old(self).src@,
                self.at_line_start == old(self).at_line_start,
                start == old(self).pos,
                start < self.pos,
                self.src@[start as int] == 34,
            decreases self.src@.len() - self.pos,
        {
            if self.pos >= self.src.len() {
                return Err(
                    LexError::new(
                        LexErrorKind::UnterminatedString,
                        Span::new(start, self.src.len()),
                    ),
                );
            }
            let c = self.src[self.pos];
            if c == 34 {
                self.pos = self.pos + 1;
                let span = Span::new(start, self.pos);
                proof {
                    let t = text_at(self.src@, span);
                    assert(t.len() >= 2);
                    assert(t[0] == self.src@[start as int]);
                    assert(t.last() == self.src@[self.pos - 1]);
                    assert(t.last() == 34);
                }
                return Ok(Token::new(TokenKind::Str(buf), span));
            } else if c == 10 || c == 13 {
                return Err(
                    LexError::new(LexErrorKind::NewlineInString, Span::new(self.pos, self.pos + 1)),
                );
            } else if c == 92 {
                self.pos = self.pos + 1;
                match self.scan_escape(&mut buf) {
                    Err(e) => return Err(e),
                    Ok(()) => {},
                }
            } else {
                // Copy the whole code point.
                let (ch, n) = decode_utf8(self.src, self.pos);
                buf.push(ch);
                self.pos = self.pos + n;
            }
        }
    }

    /// A triple-quoted literal: everything up to the next `"""` is the
    /// content, line breaks included; backslash escapes are decoded as in
    /// an ordinary string literal.
    fn scan_triple_string(&mut self) -> (r: Result<Token, LexError>)
        requires
            old(self).wf(),
            old(self).pos + 2 < old(self).src@.len(),
            old(self).src@[old(self).pos as int] == 34,
            old(self).src@[old(self).pos + 1] == 34,
            old(self).src@[old(self).pos + 2] == 34,
        ensures
            final(self).wf(),
            final(self).src@ == old(self).src@,
            final(self).at_line_start == old(self).at_line_start,
            r matches Ok(t) ==> t.span.start == old(self).pos && t.span.end == final(self).pos
                && old(self).pos < final(self).pos && kind_agrees(
                t.kind,
                text_at(final(self).src@, t.span),
            ),
            r matches Err(e) ==> error_within(e, old(self).src@.len() as int),
    {
        let start = self.pos;
        self.pos = self.pos + 3;
        let mut buf = String::new();
        loop
            invariant
                self.wf(),
                self.src@ == old(self).src@,
                self.at_line_start == old(self).at_line_start,
                start == old(self).pos,
                start + 3 <= self.pos,
                self.src@[start as int] == 34,
            decreases self.src@.len() - self.pos,
        {
            if self.pos >= self.src.len() {
                return Err(
                    LexError::new(
                        LexErrorKind::UnterminatedString,
                        Span::new(start, self.src.len()),
                    ),
                );
            }
            let c = self.src[self.pos];
            if c == 34 && self.byte_or_zero(self.pos + 1) == 34 && self.byte_or_zero(self.pos + 2)
                == 34 {
                self.pos = self.pos + 3;
                let span = Span::new(start, self.pos);
                proof {
                    let t = text_at(self.src@, span);
                    assert(t.len() >= 2);
                    assert(t[0] == self.src@[start as int]);
                    assert(t.last() == self.src@[self.pos - 1]);
                    assert(t.last() == 34);
                }
                return Ok(Token::new(TokenKind::Str(buf), span));
            } else if c == 92 {
                self.pos = self.pos + 1;
                match self.scan_escape(&mut buf) {
                    Err(e) => return Err(e),
                    Ok(()) => {},
                }
            } else {
                let (ch, n) = decode_utf8(self.src, self.pos);
                buf.push(ch);
                self.pos = self.pos + n;
            }
        }
    }

    fn scan_escape(&mut self, buf: &mut String) -> (r: Result<(), LexError>)
        requires
            old(self).wf(),
            1 <= old(self).pos,
        ensures
            final(self).wf(),
            final(self).src@ == old(self).src@,
            final(self).at_line_start == old(self).at_line_start,
            r is Ok ==> old(self).pos < final(self).pos,
            r matches Err(e) ==> error_within(e, old(self).src@.len() as int),
            old(self).pos < old(self).src@.len() ==> match escaped_char(old(self).src@[old(self).pos as int]) {
                Some(ch) => r is Ok && final(buf)@ == old(buf)@.push(ch) && final(self).pos == old(self).pos + 1,
                None => true,
            },
    {
        if self.pos >= self.src.len() {
            return Err(
                LexError::new(LexErrorKind::UnterminatedString, Span::new(self.pos, self.pos)),
            );
        }
        let c = self.src[self.pos];
        let esc_start = self.pos - 1;
        if c == 110 {
            buf.push('\n');
            self.pos = self.pos + 1;
        } else if c == 116 {
            buf.push('\t');
            self.pos = self.pos + 1;
        } else if c == 114 {
            buf.push('\r');
            self.pos = self.pos + 1;
        } else if c == 92 {
            buf.push('\\');
            self.pos = self.pos + 1;
        } else if c == 34 {
            buf.push('"');
            self.pos = self.pos + 1;
        } else if c == 117 {
            self.pos = self.pos + 1;
            return self.scan_unicode_escape(esc_start, buf);
        } else {
            let (ch, ch_len) = decode_utf8(self.src, self.pos);
            let span = Span::new(esc_start, self.pos + ch_len);
            self.pos = self.pos + ch_len;
            return Err(LexError::new(LexErrorKind::UnknownEscape(ch), span));
        }
        Ok(())
    }

    fn scan_unicode_escape(&mut self, esc_start: usize, buf: &mut String) -> (r: Result<
        (),
        LexError,
    >)
        requires
            old(self).wf(),
            esc_start < old(self).pos,
        ensures
            final(self).wf(),
            final(self).src@ == old(self).src@,
            final(self).at_line_start == old(self).at_line_start,
            r is Ok ==> old(self).pos < final(self).pos,
            r matches Err(e) ==> error_within(e, old(self).src@.len() as int),
    {
        if self.pos >= self.src.len() || self.src[self.pos] != 123 {
            return Err(
                LexError::new(
                    LexErrorKind::MalformedUnicodeEscape,
                    Span::new(esc_start, self.pos),
                ),
            );
        }
        self.pos = self.pos + 1;
        let hex_start = self.pos;
        let mut value: u32 = 0;
        while self.pos < self.src.len() && is_hex_byte(self.src[self.pos])
            invariant
                self.wf(),
                self.src@ == old(self).src@,
                self.at_line_start == old(self).at_line_start,
                hex_start <= self.pos,
                hex_start == old(self).pos + 1,
                self.pos - hex_start <= 6 ==> value < pow16(self.pos - hex_start),
            decreases self.src@.len() - self.pos,
        {
            let d = hex_digit_value(self.src[self.pos]);
            if self.pos - hex_start < 6 {
                proof { lemma_pow16_step((self.pos - hex_start) as nat); }
                value = value * 16 + d;
            }
            self.pos = self.pos + 1;
        }
        let hex_len = self.pos - hex_start;
        if !(1 <= hex_len && hex_len <= 6) {
            return Err(
                LexError::new(
                    LexErrorKind::MalformedUnicodeEscape,
                    Span::new(esc_start, self.pos),
                ),
            );
        }
        if self.pos >= self.src.len() || self.src[self.pos] != 125 {
            return Err(
                LexError::new(
                    LexErrorKind::MalformedUnicodeEscape,
                    Span::new(esc_start, self.pos),
                ),
            );
        }
        self.pos = self.pos + 1;
        match char::from_u32(value) {
            Some(ch) => {
                buf.push(ch);
                Ok(())
            },
            None => Err(
                LexError::new(
                    LexErrorKind::InvalidUnicodeScalar(value),
                    Span::new(esc_start, self.pos),
                ),
            ),
        }
    }
}

/// `16^n`.
spec fn pow16(n: int) -> int
    decreases n,
{
    if n <= 0 {
        1
    } else {
        16 * pow16(n - 1)
    }
}

proof fn lemma_pow16_step(n: nat)
    requires
        n < 6,
    ensures
        pow16(n + 1int) == 16 * pow16(n as int),
        pow16(n + 1int) <= 0x1000000,
{
    reveal_with_fuel(pow16, 7);
}

/// Whether `b` is an ASCII hexadecimal digit.
fn is_hex_byte(b: u8) -> (r: bool)
    ensures
        r == is_hex_digit(b),
{
    (48 <= b && b <= 57) || (97 <= b && b <= 102) || (65 <= b && b <= 70)
}

/// Value of an ASCII hexadecimal digit.
fn hex_digit_value(b: u8) -> (r: u32)
    requires
        is_hex_digit(b),
    ensures
        r == hex_value(b),
        r < 16,
{
    if 48 <= b && b <= 57 {
        (b - 48) as u32
    } else if 97 <= b && b <= 102 {
        (b - 87) as u32
    } else {
        (b - 55) as u32
    }
}

/// Digit values are never negative.
proof fn lemma_digits_value_nonneg(t: Seq<u8>)
    requires
        forall|i: int| 0 <= i < t.len() ==> is_digit(#[trigger] t[i]) || t[i] == 95,
    ensures
        digits_value(t) >= 0,
    decreases t.len(),
{
    if t.len() > 0 {
        assert(is_digit(t[t.len() - 1]) || t[t.len() - 1] == 95);
        lemma_digits_value_nonneg(t.drop_last());
    }
}

/// The byte at `pos` starts no inline trivia: it is not a space, tab,
/// carriage return or newline, and starts neither a `--` comment (one not
/// followed by an operator character) nor a `{-` comment.
pub open spec fn inline_trivia_stops(src: Seq<u8>, pos: int) -> bool {
    let c = src[pos];
    let next = if pos + 1 < src.len() {
        src[pos + 1]
    } else {
        0u8
    };
    let after = if pos + 2 < src.len() {
        src[pos + 2]
    } else {
        0u8
    };
    &&& c != 32 && c != 9 && c != 13 && c != 10
    &&& !(c == 45 && next == 45 && !crate::lexer::spec::is_op_char(after))
    &&& !(c == 123 && next == 45)
}
} // verus!
