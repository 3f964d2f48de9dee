//! Patterns.
use vstd::prelude::*;

use super::{parser_error, ParseError, ParseErrorKind, Parser};
use crate::ast::{pattern_span, Literal, ModName, Pattern, PatternField};
use crate::lexer::scan::text_is;
use crate::lexer::TokenKind;
use crate::span::Span;

verus! {

/// Tokens that can start an atomic pattern.
pub open spec fn apat_start(k: TokenKind) -> bool {
    k is Underscore || k is LowerIdent || k is UpperIdent || k is Int || k is Str || k is LParen
        || k is LBracket || k is LBrace
}

impl<'t> Parser<'t> {
    pub(crate) fn at_apat_start(&self) -> (r: bool)
        requires
            self.wf(),
        ensures
            r == apat_start(self.cur().kind),
    {
        matches!(
            self.peek_kind(),
            TokenKind::Underscore | TokenKind::LowerIdent(_) | TokenKind::UpperIdent(_)
                | TokenKind::Int(_) | TokenKind::Str(_) | TokenKind::LParen | TokenKind::LBracket
                | TokenKind::LBrace
        )
    }

    /// A full pattern: a constructor pattern or atomic pattern, with a
    /// right-associative `::` cons chain.
    pub(crate) fn parse_pat(&mut self) -> (r: Result<Pattern, ParseError>)
        requires
            old(self).wf(),
        ensures
            final(self).keeps(*old(self)),
            r matches Err(e) ==> parser_error(e.kind),
            r is Ok ==> old(self).pos < final(self).pos,
        decreases old(self).remaining(), 3int,
    {
        let head = self.parse_con_pat()?;
        if matches!(self.peek_kind(), TokenKind::DoubleColon) {
            self.bump();
            let tail = self.parse_pat()?;
            let span = head.span().merge(tail.span());
            Ok(Pattern::Cons { head: Box::new(head), tail: Box::new(tail), span })
        } else {
            Ok(head)
        }
    }

    /// A possibly qualified constructor applied to atomic patterns, or
    /// an atomic pattern.
    pub(crate) fn parse_con_pat(&mut self) -> (r: Result<Pattern, ParseError>)
        requires
            old(self).wf(),
        ensures
            final(self).keeps(*old(self)),
            r matches Err(e) ==> parser_error(e.kind),
            r is Ok ==> old(self).pos < final(self).pos,
        decreases old(self).remaining(), 2int,
    {
        if let TokenKind::UpperIdent(_) = self.peek_kind() {
            let tok_span = self.peek().span;
            let (name, name_span) = self.expect_upper_ident()?;
            let mut segments: Vec<String> = Vec::new();
            segments.push(name);
            let mut span = name_span;
            while matches!(self.peek_kind(), TokenKind::Dot) && matches!(
                self.peek_at(1),
                TokenKind::UpperIdent(_)
            )
                invariant
                    self.keeps(*old(self)),
                    old(self).pos < self.pos,
                    segments@.len() >= 1,
                decreases self.remaining(),
            {
                self.bump();
                let (seg, seg_span) = self.expect_upper_ident()?;
                segments.push(seg);
                span = span.merge(seg_span);
            }
            let ctor_name = segments.pop().unwrap();
            let module = if segments.len() == 0 {
                None
            } else {
                Some(ModName { segments, span: tok_span })
            };
            let mut args: Vec<Pattern> = Vec::new();
            while self.at_apat_start()
                invariant
                    self.keeps(*old(self)),
                    old(self).pos < self.pos,
                decreases self.remaining(),
            {
                let a = self.parse_apat()?;
                args.push(a);
            }
            let n = args.len();
            let end = if n > 0 {
                args[n - 1].span()
            } else {
                span
            };
            Ok(Pattern::Con { module, name: ctor_name, args, span: tok_span.merge(end) })
        } else {
            self.parse_apat()
        }
    }

    /// An atomic pattern.
    pub(crate) fn parse_apat(&mut self) -> (r: Result<Pattern, ParseError>)
        requires
            old(self).wf(),
        ensures
            final(self).keeps(*old(self)),
            r matches Err(e) ==> parser_error(e.kind),
            r is Ok ==> old(self).pos < final(self).pos,
            r is Ok ==> apat_start(old(self).cur().kind),
            !apat_start(old(self).cur().kind) ==> (r matches Err(e) && e.kind is Expected && e.span
                == old(self).cur().span),
            old(self).cur().kind is Underscore ==> r == Ok::<Pattern, ParseError>(
                Pattern::Wildcard(old(self).cur().span),
            ) && final(self).pos == old(self).pos + 1,
            match old(self).cur().kind {
                TokenKind::LowerIdent(n) => !(old(self).kind_at(1) matches TokenKind::Op(o) && o@ == "@"@) ==> (r
                    == Ok::<Pattern, ParseError>(Pattern::Var { name: n, span: old(self).cur().span })
                    && final(self).pos == old(self).pos + 1),
                TokenKind::Int(v) => r == Ok::<Pattern, ParseError>(Pattern::Lit(Literal::Int(v), old(self).cur().span))
                    && final(self).pos == old(self).pos + 1,
                TokenKind::Str(v) => r == Ok::<Pattern, ParseError>(Pattern::Lit(Literal::Str(v), old(self).cur().span))
                    && final(self).pos == old(self).pos + 1,
                TokenKind::UpperIdent(n) => !(old(self).kind_at(1) is Dot && old(self).kind_at(2) is UpperIdent) ==> (
                r matches Ok(Pattern::Con { module, name, args, span }) && module is None && name == n && args@.len()
                    == 0 && span == old(self).cur().span && final(self).pos == old(self).pos + 1),
                _ => true,
            },
        decreases old(self).remaining(), 1int,
    {
        let tok = self.peek().clone();
        match tok.kind {
            TokenKind::Underscore => {
                self.bump();
                Ok(Pattern::Wildcard(tok.span))
            },
            TokenKind::LowerIdent(n) => {
                self.bump();
                let is_at = match self.peek_kind() {
                    TokenKind::Op(s) => text_is(s, "@"),
                    _ => false,
                };
                if is_at {
                    self.bump();
                    let inner = self.parse_apat()?;
                    let span = tok.span.merge(inner.span());
                    Ok(Pattern::As { name: n, inner: Box::new(inner), span })
                } else {
                    Ok(Pattern::Var { name: n, span: tok.span })
                }
            },
            TokenKind::UpperIdent(n) => {
                self.bump();
                let mut segments: Vec<String> = Vec::new();
                segments.push(n);
                let mut span = tok.span;
                while matches!(self.peek_kind(), TokenKind::Dot) && matches!(
                    self.peek_at(1),
                    TokenKind::UpperIdent(_)
                )
                    invariant
                        self.keeps(*old(self)),
                        old(self).pos < self.pos,
                        segments@.len() >= 1,
                        tok == old(self).cur(),
                        old(self).cur().kind == TokenKind::UpperIdent(n),
                        segments@.len() == 1 ==> self.pos == old(self).pos + 1 && segments@[0] == n && span == tok.span,
                        segments@.len() > 1 ==> (old(self).kind_at(1) is Dot && old(self).kind_at(2) is UpperIdent),
                    decreases self.remaining(),
                {
                    self.bump();
                    let (seg, seg_span) = self.expect_upper_ident()?;
                    segments.push(seg);
                    span = span.merge(seg_span);
                }
                let ctor_name = segments.pop().unwrap();
                proof {
                    if !(old(self).kind_at(1) is Dot && old(self).kind_at(2) is UpperIdent) {
                        assert(ctor_name == n);
                    }
                }
                let module = if segments.len() == 0 {
                    None
                } else {
                    Some(ModName { segments, span: tok.span })
                };
                Ok(Pattern::Con { module, name: ctor_name, args: Vec::new(), span })
            },
            TokenKind::Int(v) => {
                self.bump();
                Ok(Pattern::Lit(Literal::Int(v), tok.span))
            },
            TokenKind::Str(v) => {
                self.bump();
                Ok(Pattern::Lit(Literal::Str(v), tok.span))
            },
            TokenKind::LParen => {
                self.bump();
                if matches!(self.peek_kind(), TokenKind::RParen) {
                    return Err(
                        ParseError::new(
                            ParseErrorKind::UnsupportedFeature("`()` empty-tuple pattern"),
                            tok.span,
                        ),
                    );
                }
                let p = self.parse_pat()?;
                let out = if matches!(self.peek_kind(), TokenKind::Colon) {
                    self.bump();
                    let ty = self.parse_type()?;
                    let span = p.span().merge(ty.span());
                    Pattern::Annot { inner: Box::new(p), ty, span }
                } else {
                    p
                };
                self.expect(&TokenKind::RParen, "`)`")?;
                Ok(out)
            },
            TokenKind::LBracket => {
                self.bump();
                let mut items: Vec<Pattern> = Vec::new();
                if !matches!(self.peek_kind(), TokenKind::RBracket) {
                    loop
                        invariant
                            self.keeps(*old(self)),
                            old(self).pos < self.pos,
                            old(self).cur().kind is LBracket,
                        decreases self.remaining(),
                    {
                        let p = self.parse_pat()?;
                        items.push(p);
                        if matches!(self.peek_kind(), TokenKind::Comma) {
                            self.bump();
                            continue ;
                        }
                        break ;
                    }
                }
                let end = self.expect(&TokenKind::RBracket, "`]`")?.span;
                Ok(Pattern::List { items, span: tok.span.merge(end) })
            },
            TokenKind::LBrace => {
                self.bump();
                let mut fields: Vec<PatternField> = Vec::new();
                if !matches!(self.peek_kind(), TokenKind::RBrace) {
                    loop
                        invariant
                            self.keeps(*old(self)),
                            old(self).pos < self.pos,
                            old(self).cur().kind is LBrace,
                        decreases self.remaining(),
                    {
                        let (fname, _) = self.expect_lower_ident()?;
                        self.expect(&TokenKind::Equals, "`=`")?;
                        let fpat = self.parse_pat()?;
                        fields.push(PatternField(fname, fpat));
                        if matches!(self.peek_kind(), TokenKind::Comma) {
                            self.bump();
                            continue ;
                        }
                        break ;
                    }
                }
                let end = self.expect(&TokenKind::RBrace, "`}`")?.span;
                Ok(Pattern::Record { fields, span: tok.span.merge(end) })
            },
            other => Err(
                ParseError::new(
                    ParseErrorKind::Expected { expected: "pattern", found: other },
                    tok.span,
                ),
            ),
        }
    }
}

} // verus!
