//! Sapphire parser: recursive descent with a precedence-climbing
//! operator layer, over the token stream of the layout pass.
use vstd::prelude::*;

pub mod error;
mod decl;
mod expr;
mod pattern;
mod types;

pub use error::{ParseError, ParseErrorKind};

use vstd::string::StringSliceAdditionalSpecFns;

use crate::ast::Module;
use crate::layout::{layout_result, resolve_with_source};
use crate::lexer::spec::token_stream_of;
use crate::lexer::{error_within, tokenize, LexError};
use crate::lexer::scan::text_is;
use crate::lexer::token::kind_tag;
use crate::lexer::{Token, TokenKind};
use crate::span::Span;

verus! {

/// A token stream the parser can run over: non-empty and closed by
/// `Eof`, as the layout pass leaves it.
pub open spec fn parsable(tokens: Seq<Token>) -> bool {
    tokens.len() >= 1 && tokens.last().kind is Eof
}

/// Parse a source string end to end: lex, resolve layout, parse.
///
/// A lex error comes back as `Unexpected(Op("lex: <message>"))` at the
/// lex error's span, and a layout error as `MalformedLayout` at its span.
pub fn parse(source: &str) -> (r: Result<Module, ParseError>)
    ensures
        r matches Err(e) ==> parser_error(e.kind) || e.kind is MalformedLayout || exists|
            le: LexError,
        |
            error_within(le, source.spec_bytes().len() as int) && e.span == le.span && (
            e.kind matches ParseErrorKind::Unexpected(TokenKind::Op(m)) && m@ == "lex: "@
                + le.kind.message_text()),
        r is Ok ==> exists|toks: Seq<Token>, out: Seq<Token>|
            token_stream_of(source.spec_bytes(), toks) && layout_result(toks, out)
                && out[0].kind is LBrace,
{
    let tokens = match tokenize(source) {
        Ok(t) => t,
        Err(e) => {
            let mut m = String::from_str("lex: ");
            let ghost p = m@;
            let msg = e.kind.message();
            m.append(msg.as_str());
            let r = ParseError::new(ParseErrorKind::Unexpected(TokenKind::Op(m)), e.span);
            proof {
                assert(error_within(e, source.spec_bytes().len() as int) && r.span == e.span && (
                r.kind matches ParseErrorKind::Unexpected(TokenKind::Op(mm)) && mm@ == "lex: "@
                    + e.kind.message_text()));
            }
            return Err(r);
        },
    };
    let ghost toks = tokens@;
    let resolved = match resolve_with_source(tokens, source) {
        Ok(t) => t,
        Err(e) => return Err(ParseError::new(ParseErrorKind::MalformedLayout, e.span)),
    };
    let r = parse_tokens(resolved.as_slice());
    proof {
        if r is Ok {
            assert(layout_result(toks, resolved@));
        }
    }
    r
}

/// Parse a resolved token stream.
///
/// The stream must be closed by `Eof` (the layout pass guarantees it);
/// the parser reads past no `Eof` and stops there.
pub fn parse_tokens(tokens: &[Token]) -> (r: Result<Module, ParseError>)
    requires
        parsable(tokens@),
    ensures
        r matches Err(e) ==> parser_error(e.kind),
        r is Ok ==> tokens@[0].kind is LBrace,
{
    let mut parser = Parser::new(tokens);
    parser.parse_module()
}

pub struct Parser<'t> {
    pub(crate) tokens: &'t [Token],
    pub(crate) pos: usize,
}

/// The error kinds the parser itself reports.
pub open spec fn parser_error(k: ParseErrorKind) -> bool {
    k is Expected || k is NonAssociativeChain || k is UnsupportedFeature
}

/// Textual symbol of an operator-like token.
pub open spec fn op_symbol(k: TokenKind) -> Option<Seq<char>> {
    match k {
        TokenKind::Plus => Some("+"@),
        TokenKind::Minus => Some("-"@),
        TokenKind::Star => Some("*"@),
        TokenKind::Slash => Some("/"@),
        TokenKind::Percent => Some("%"@),
        TokenKind::EqEq => Some("=="@),
        TokenKind::SlashEq => Some("/="@),
        TokenKind::Lt => Some("<"@),
        TokenKind::LtEq => Some("<="@),
        TokenKind::Gt => Some(">"@),
        TokenKind::GtEq => Some(">="@),
        TokenKind::AndAnd => Some("&&"@),
        TokenKind::OrOr => Some("||"@),
        TokenKind::PlusPlus => Some("++"@),
        TokenKind::DoubleColon => Some("::"@),
        TokenKind::Op(s) => Some(s@),
        _ => None,
    }
}

/// Convert an operator-like token into its textual symbol.
pub(crate) fn op_token_symbol(kind: &TokenKind) -> (r: Option<String>)
    ensures
        op_symbol(*kind) is None ==> r is None,
        op_symbol(*kind) matches Some(s) ==> r matches Some(t) && t@ == s,
{
    match kind {
        TokenKind::Plus => Some(String::from_str("+")),
        TokenKind::Minus => Some(String::from_str("-")),
        TokenKind::Star => Some(String::from_str("*")),
        TokenKind::Slash => Some(String::from_str("/")),
        TokenKind::Percent => Some(String::from_str("%")),
        TokenKind::EqEq => Some(String::from_str("==")),
        TokenKind::SlashEq => Some(String::from_str("/=")),
        TokenKind::Lt => Some(String::from_str("<")),
        TokenKind::LtEq => Some(String::from_str("<=")),
        TokenKind::Gt => Some(String::from_str(">")),
        TokenKind::GtEq => Some(String::from_str(">=")),
        TokenKind::AndAnd => Some(String::from_str("&&")),
        TokenKind::OrOr => Some(String::from_str("||")),
        TokenKind::PlusPlus => Some(String::from_str("++")),
        TokenKind::DoubleColon => Some(String::from_str("::")),
        TokenKind::Op(s) => Some(s.clone()),
        _ => None,
    }
}

/// How an operator groups with neighbours of its own tier.
#[derive(Debug, Clone, Copy, PartialEq, Eq, Structural)]
pub enum Assoc {
    Left,
    Right,
    NonAssoc,
}

/// Precedence tier and associativity of an operator.
#[derive(Debug, Clone, Copy, PartialEq, Eq, Structural)]
pub struct OpInfo {
    pub prec: u8,
    pub assoc: Assoc,
}

/// The operator table: tiers 2..7 for the expression operators and
/// tier 1 for the monadic `>>=` / `>>`.
pub open spec fn op_table(s: Seq<char>) -> Option<OpInfo> {
    if s == "||"@ {
        Some(OpInfo { prec: 2, assoc: Assoc::Right })
    } else if s == "&&"@ {
        Some(OpInfo { prec: 3, assoc: Assoc::Right })
    } else if s == "=="@ || s == "/="@ || s == "<"@ || s == ">"@ || s == "<="@ || s == ">="@ {
        Some(OpInfo { prec: 4, assoc: Assoc::NonAssoc })
    } else if s == "++"@ || s == "::"@ {
        Some(OpInfo { prec: 5, assoc: Assoc::Right })
    } else if s == "+"@ || s == "-"@ {
        Some(OpInfo { prec: 6, assoc: Assoc::Left })
    } else if s == "*"@ || s == "/"@ || s == "%"@ {
        Some(OpInfo { prec: 7, assoc: Assoc::Left })
    } else if s == ">>="@ || s == ">>"@ {
        Some(OpInfo { prec: 1, assoc: Assoc::Left })
    } else {
        None
    }
}

/// Operators of one tier group the same way: precedence climbing needs
/// one associativity per tier, or a chain mixing two operators of the
/// tier would have no single reading.
pub proof fn lemma_tier_has_one_associativity(s1: Seq<char>, s2: Seq<char>)
    requires
        op_table(s1) is Some,
        op_table(s2) is Some,
        op_table(s1)->0.prec == op_table(s2)->0.prec,
    ensures
        op_table(s1)->0.assoc == op_table(s2)->0.assoc,
{
}

/// Every operator binding tighter than `++` and `::` (the additive and
/// multiplicative ones) groups to the left: `a - b - c` is `(a - b) - c`
/// and `a / b / c` is `(a / b) / c`.
pub proof fn lemma_arithmetic_groups_left(s: Seq<char>)
    requires
        op_table(s) is Some,
        op_table(s)->0.prec > op_table("++"@)->0.prec,
    ensures
        op_table(s)->0.assoc == Assoc::Left,
{
    reveal_strlit("||");
    assert("||"@.len() == 2 && "||"@[0] == '|');
    reveal_strlit("&&");
    assert("&&"@.len() == 2 && "&&"@[0] == '&');
    reveal_strlit("==");
    assert("=="@.len() == 2 && "=="@[0] == '=');
    reveal_strlit("/=");
    assert("/="@.len() == 2 && "/="@[0] == '/');
    reveal_strlit("<");
    assert("<"@.len() == 1 && "<"@[0] == '<');
    reveal_strlit(">");
    assert(">"@.len() == 1 && ">"@[0] == '>');
    reveal_strlit("<=");
    assert("<="@.len() == 2 && "<="@[0] == '<');
    reveal_strlit(">=");
    assert(">="@.len() == 2 && ">="@[0] == '>');
    reveal_strlit("++");
    assert("++"@.len() == 2 && "++"@[0] == '+');
    reveal_strlit("::");
    assert("::"@.len() == 2 && "::"@[0] == ':');
    reveal_strlit("+");
    assert("+"@.len() == 1 && "+"@[0] == '+');
    reveal_strlit("-");
    assert("-"@.len() == 1 && "-"@[0] == '-');
    reveal_strlit("*");
    assert("*"@.len() == 1 && "*"@[0] == '*');
    reveal_strlit("/");
    assert("/"@.len() == 1 && "/"@[0] == '/');
    reveal_strlit("%");
    assert("%"@.len() == 1 && "%"@[0] == '%');
    reveal_strlit(">>=");
    assert(">>="@.len() == 3 && ">>="@[0] == '>');
    reveal_strlit(">>");
    assert(">>"@.len() == 2 && ">>"@[0] == '>');
}

/// Subtraction shares its tier and grouping with addition, and division
/// and remainder with multiplication.
pub proof fn lemma_inverse_operators_share_tier()
    ensures
        op_table("-"@) == op_table("+"@),
        op_table("/"@) == op_table("*"@),
        op_table("%"@) == op_table("*"@),
        op_table("+"@) is Some,
        op_table("*"@) is Some,
{
    reveal_strlit("||");
    assert("||"@.len() == 2 && "||"@[0] == '|');
    reveal_strlit("&&");
    assert("&&"@.len() == 2 && "&&"@[0] == '&');
    reveal_strlit("==");
    assert("=="@.len() == 2 && "=="@[0] == '=');
    reveal_strlit("/=");
    assert("/="@.len() == 2 && "/="@[0] == '/');
    reveal_strlit("<");
    assert("<"@.len() == 1 && "<"@[0] == '<');
    reveal_strlit(">");
    assert(">"@.len() == 1 && ">"@[0] == '>');
    reveal_strlit("<=");
    assert("<="@.len() == 2 && "<="@[0] == '<');
    reveal_strlit(">=");
    assert(">="@.len() == 2 && ">="@[0] == '>');
    reveal_strlit("++");
    assert("++"@.len() == 2 && "++"@[0] == '+');
    reveal_strlit("::");
    assert("::"@.len() == 2 && "::"@[0] == ':');
    reveal_strlit("+");
    assert("+"@.len() == 1 && "+"@[0] == '+');
    reveal_strlit("-");
    assert("-"@.len() == 1 && "-"@[0] == '-');
    reveal_strlit("*");
    assert("*"@.len() == 1 && "*"@[0] == '*');
    reveal_strlit("/");
    assert("/"@.len() == 1 && "/"@[0] == '/');
    reveal_strlit("%");
    assert("%"@.len() == 1 && "%"@[0] == '%');
    reveal_strlit(">>=");
    assert(">>="@.len() == 3 && ">>="@[0] == '>');
    reveal_strlit(">>");
    assert(">>"@.len() == 2 && ">>"@[0] == '>');
}

/// Look an operator up in the operator table.
pub(crate) fn operator_info(sym: &String) -> (r: Option<OpInfo>)
    ensures
        r == op_table(sym@),
{
    if text_is(sym, "||") {
        Some(OpInfo { prec: 2, assoc: Assoc::Right })
    } else if text_is(sym, "&&") {
        Some(OpInfo { prec: 3, assoc: Assoc::Right })
    } else if text_is(sym, "==") || text_is(sym, "/=") || text_is(sym, "<") || text_is(sym, ">")
        || text_is(sym, "<=") || text_is(sym, ">=") {
        Some(OpInfo { prec: 4, assoc: Assoc::NonAssoc })
    } else if text_is(sym, "++") || text_is(sym, "::") {
        Some(OpInfo { prec: 5, assoc: Assoc::Right })
    } else if text_is(sym, "+") || text_is(sym, "-") {
        Some(OpInfo { prec: 6, assoc: Assoc::Left })
    } else if text_is(sym, "*") || text_is(sym, "/") || text_is(sym, "%") {
        Some(OpInfo { prec: 7, assoc: Assoc::Left })
    } else if text_is(sym, ">>=") || text_is(sym, ">>") {
        Some(OpInfo { prec: 1, assoc: Assoc::Left })
    } else {
        None
    }
}

/// The table entry of an operator token.
pub(crate) fn operator_info_for_token(kind: &TokenKind) -> (r: Option<OpInfo>)
    ensures
        op_symbol(*kind) is None ==> r is None,
        op_symbol(*kind) matches Some(s) ==> r == op_table(s),
{
    match op_token_symbol(kind) {
        Some(sym) => operator_info(&sym),
        None => None,
    }
}

impl<'t> Parser<'t> {
    /// The cursor lies on the stream, which is closed by `Eof`.
    pub(crate) open spec fn wf(&self) -> bool {
        &&& parsable(self.tokens@)
        &&& self.pos < self.tokens@.len()
        &&& self.tokens@.len() <= usize::MAX
    }

    /// `self` reads the same stream as `prev`, no earlier than `prev`.
    pub(crate) open spec fn keeps(&self, prev: Parser<'t>) -> bool {
        &&& self.wf()
        &&& self.tokens@ == prev.tokens@
        &&& prev.pos <= self.pos
    }

    /// Tokens left from the cursor on.
    pub(crate) open spec fn remaining(&self) -> int {
        self.tokens@.len() - self.pos
    }

    /// The token under the cursor.
    pub(crate) open spec fn cur(&self) -> Token {
        self.tokens@[self.pos as int]
    }

    /// The kind of the token `off` places after the cursor, or of the
    /// last token when that lies past the end.
    pub(crate) open spec fn kind_at(&self, off: int) -> TokenKind {
        if self.pos + off < self.tokens@.len() {
            self.tokens@[self.pos + off].kind
        } else {
            self.tokens@.last().kind
        }
    }

    fn new(tokens: &'t [Token]) -> (r: Self)
        requires
            parsable(tokens@),
        ensures
            r.wf(),
            r.tokens@ == tokens@,
            r.pos == 0,
    {
        let n = tokens.len();
        assert(n == tokens@.len());
        Parser { tokens, pos: 0 }
    }

    pub(crate) fn peek(&self) -> (r: &Token)
        requires
            self.wf(),
        ensures
            *r == self.cur(),
    {
        let last = self.tokens.len() - 1;
        let i = if self.pos < last {
            self.pos
        } else {
            last
        };
        &self.tokens[i]
    }

    pub(crate) fn peek_kind(&self) -> (r: &TokenKind)
        requires
            self.wf(),
        ensures
            *r == self.cur().kind,
    {
        &self.peek().kind
    }

    pub(crate) fn peek_at(&self, off: usize) -> (r: &TokenKind)
        requires
            self.wf(),
        ensures
            *r == self.kind_at(off as int),
    {
        let last = self.tokens.len() - 1;
        let idx = if off <= last - self.pos {
            self.pos + off
        } else {
            last
        };
        &self.tokens[idx].kind
    }

    /// Take the current token; the cursor moves on unless it is on the
    /// last token.
    pub(crate) fn bump(&mut self) -> (r: Token)
        requires
            old(self).wf(),
        ensures
            final(self).keeps(*old(self)),
            r == old(self).cur(),
            !(old(self).cur().kind is Eof) ==> final(self).pos == old(self).pos + 1,
    {
        let t = self.tokens[self.pos].clone();
        if self.pos < self.tokens.len() - 1 {
            self.pos = self.pos + 1;
        }
        t
    }

    /// The current token has the same variant as `k`.
    pub(crate) fn at(&self, k: &TokenKind) -> (r: bool)
        requires
            self.wf(),
        ensures
            r == (kind_tag(self.cur().kind) == kind_tag(*k)),
    {
        self.peek_kind().tag() == k.tag()
    }

    /// Take the current token when it has the same variant as `k`.
    pub(crate) fn eat(&mut self, k: &TokenKind) -> (r: bool)
        requires
            old(self).wf(),
        ensures
            final(self).keeps(*old(self)),
            r == (kind_tag(old(self).cur().kind) == kind_tag(*k)),
            !r ==> final(self).pos == old(self).pos,
    {
        if self.at(k) {
            self.bump();
            true
        } else {
            false
        }
    }

    /// Take a token of the same variant as `k`, or fail with an
    /// `Expected` error at the current token.
    pub(crate) fn expect(&mut self, k: &TokenKind, desc: &'static str) -> (r: Result<
        Token,
        ParseError,
    >)
        requires
            old(self).wf(),
        ensures
            final(self).keeps(*old(self)),
            r matches Err(e) ==> parser_error(e.kind),
            r matches Ok(t) ==> t == old(self).cur() && kind_tag(t.kind) == kind_tag(*k),
            r is Ok && !(*k is Eof) ==> final(self).pos == old(self).pos + 1,
            r matches Err(e) ==> e.span == old(self).cur().span && e.kind == (
            ParseErrorKind::Expected { expected: desc, found: old(self).cur().kind }),
    {
        if self.at(k) {
            Ok(self.bump())
        } else {
            let tok = self.peek().clone();
            Err(
                ParseError::new(
                    ParseErrorKind::Expected { expected: desc, found: tok.kind },
                    tok.span,
                ),
            )
        }
    }

    pub(crate) fn expect_lower_ident(&mut self) -> (r: Result<(String, Span), ParseError>)
        requires
            old(self).wf(),
        ensures
            final(self).keeps(*old(self)),
            r matches Err(e) ==> parser_error(e.kind),
            r matches Ok(p) ==> old(self).cur().kind == TokenKind::LowerIdent(p.0) && p.1
                == old(self).cur().span && final(self).pos == old(self).pos + 1,
            r is Err ==> !(old(self).cur().kind is LowerIdent),
    {
        let tok = self.peek().clone();
        if let TokenKind::LowerIdent(name) = &tok.kind {
            let n = name.clone();
            self.bump();
            Ok((n, tok.span))
        } else {
            Err(
                ParseError::new(
                    ParseErrorKind::Expected { expected: "lower-case identifier", found: tok.kind },
                    tok.span,
                ),
            )
        }
    }

    pub(crate) fn expect_upper_ident(&mut self) -> (r: Result<(String, Span), ParseError>)
        requires
            old(self).wf(),
        ensures
            final(self).keeps(*old(self)),
            r matches Err(e) ==> parser_error(e.kind),
            r matches Ok(p) ==> old(self).cur().kind == TokenKind::UpperIdent(p.0) && p.1
                == old(self).cur().span && final(self).pos == old(self).pos + 1,
            r is Err ==> !(old(self).cur().kind is UpperIdent),
    {
        let tok = self.peek().clone();
        if let TokenKind::UpperIdent(name) = &tok.kind {
            let n = name.clone();
            self.bump();
            Ok((n, tok.span))
        } else {
            Err(
                ParseError::new(
                    ParseErrorKind::Expected { expected: "upper-case identifier", found: tok.kind },
                    tok.span,
                ),
            )
        }
    }

    /// Take an operator token and give its symbol.
    pub(crate) fn expect_operator_symbol(&mut self) -> (r: Result<String, ParseError>)
        requires
            old(self).wf(),
        ensures
            final(self).keeps(*old(self)),
            r matches Err(e) ==> parser_error(e.kind),
            r matches Ok(s) ==> op_symbol(old(self).cur().kind) == Some(s@) && final(self).pos
                == old(self).pos + 1,
            r is Err ==> op_symbol(old(self).cur().kind) is None,
    {
        let tok = self.peek().clone();
        match op_token_symbol(&tok.kind) {
            Some(s) => {
                self.bump();
                Ok(s)
            },
            None => Err(
                ParseError::new(
                    ParseErrorKind::Expected { expected: "operator", found: tok.kind },
                    tok.span,
                ),
            ),
        }
    }
}

} // verus!
