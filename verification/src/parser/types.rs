//! Type schemes, contexts and types.
use vstd::prelude::*;

use super::{parser_error, ParseError, ParseErrorKind, Parser};
use crate::ast::{type_span, Constraint, ModName, Scheme, Type, TypeField};
use crate::lexer::TokenKind;
use crate::span::{span_merge, Span};

verus! {

/// Tokens that can start an atomic type.
pub open spec fn atype_start(k: TokenKind) -> bool {
    k is LowerIdent || k is UpperIdent || k is LParen || k is LBrace
}

/// Scan for a context arrow `=>` at bracket depth 0, from token `i` on,
/// before a bracket closes below depth 0 or a type ends (`=`, `where`,
/// `;` at depth 0, or `Eof`).
pub open spec fn context_ahead(toks: Seq<crate::lexer::Token>, i: int, depth: int) -> bool
    decreases toks.len() - i,
{
    if i < 0 || i >= toks.len() {
        false
    } else {
        let k = toks[i].kind;
        if k is LParen || k is LBracket || k is LBrace {
            context_ahead(toks, i + 1, depth + 1)
        } else if k is RParen || k is RBracket || k is RBrace {
            if depth - 1 < 0 {
                false
            } else {
                context_ahead(toks, i + 1, depth - 1)
            }
        } else if k is FatArrow && depth == 0 {
            true
        } else if (k is Equals || k is Where || k is Semicolon) && depth == 0 {
            false
        } else if k is Eof {
            false
        } else {
            context_ahead(toks, i + 1, depth)
        }
    }
}

impl<'t> Parser<'t> {
    pub(crate) fn at_atype_start(&self) -> (r: bool)
        requires
            self.wf(),
        ensures
            r == atype_start(self.cur().kind),
    {
        matches!(
            self.peek_kind(),
            TokenKind::LowerIdent(_) | TokenKind::UpperIdent(_) | TokenKind::LParen
                | TokenKind::LBrace
        )
    }

    /// A scheme `forall a b. Ctx => type`; both prefixes optional.
    pub(crate) fn parse_scheme(&mut self) -> (r: Result<Scheme, ParseError>)
        requires
            old(self).wf(),
        ensures
            final(self).keeps(*old(self)),
            r matches Err(e) ==> parser_error(e.kind),
            r is Ok ==> old(self).pos < final(self).pos,
    {
        let start = self.peek().span;
        let mut forall: Vec<String> = Vec::new();
        if matches!(self.peek_kind(), TokenKind::Forall) {
            self.bump();
            loop
                invariant
                    self.keeps(*old(self)),
                decreases self.remaining(),
            {
                match self.peek_kind() {
                    TokenKind::LowerIdent(v) => {
                        let v = v.clone();
                        self.bump();
                        forall.push(v);
                    },
                    _ => break ,
                }
            }
            self.expect(&TokenKind::Dot, "`.`")?;
        }
        let context = self.parse_optional_context()?;
        let body = self.parse_type()?;
        let span = start.merge(body.span());
        Ok(Scheme { forall, context, body, span })
    }

    /// An optional `Ctx =>` or `(Ctx, ...) =>` prefix.
    pub(crate) fn parse_optional_context(&mut self) -> (r: Result<Vec<Constraint>, ParseError>)
        requires
            old(self).wf(),
        ensures
            final(self).keeps(*old(self)),
            r matches Err(e) ==> parser_error(e.kind),
            !context_ahead(old(self).tokens@, old(self).pos as int, 0) ==> (r matches Ok(cs)
                && cs@.len() == 0 && final(self).pos == old(self).pos),
            context_ahead(old(self).tokens@, old(self).pos as int, 0) && r is Ok ==> old(self).pos
                < final(self).pos,
    {
        if !self.looks_like_context() {
            return Ok(Vec::new());
        }
        assert(context_ahead(old(self).tokens@, old(self).pos as int, 0));
        let mut constraints: Vec<Constraint> = Vec::new();
        if matches!(self.peek_kind(), TokenKind::LParen) {
            self.bump();
            if !matches!(self.peek_kind(), TokenKind::RParen) {
                loop
                    invariant
                        self.keeps(*old(self)),
                        old(self).pos < self.pos,
                        context_ahead(old(self).tokens@, old(self).pos as int, 0),
                    decreases self.remaining(),
                {
                    let c = self.parse_constraint()?;
                    constraints.push(c);
                    if matches!(self.peek_kind(), TokenKind::Comma) {
                        self.bump();
                        continue ;
                    }
                    break ;
                }
            }
            self.expect(&TokenKind::RParen, "`)`")?;
        } else {
            let c = self.parse_constraint()?;
            constraints.push(c);
        }
        self.expect(&TokenKind::FatArrow, "`=>`")?;
        Ok(constraints)
    }

    /// Whether a context arrow `=>` lies ahead at bracket depth 0.
    pub(crate) fn looks_like_context(&self) -> (r: bool)
        requires
            self.wf(),
        ensures
            r == context_ahead(self.tokens@, self.pos as int, 0),
    {
        let mut depth: usize = 0;
        let mut i = self.pos;
        while i < self.tokens.len()
            invariant
                self.wf(),
                self.pos <= i <= self.tokens@.len(),
                0 <= depth <= i - self.pos,
                context_ahead(self.tokens@, i as int, depth as int) == context_ahead(
                    self.tokens@,
                    self.pos as int,
                    0,
                ),
            decreases self.tokens@.len() - i,
        {
            match &self.tokens[i].kind {
                TokenKind::LParen | TokenKind::LBracket | TokenKind::LBrace => {
                    depth = depth + 1;
                },
                TokenKind::RParen | TokenKind::RBracket | TokenKind::RBrace => {
                    if depth == 0 {
                        return false;
                    }
                    depth = depth - 1;
                },
                TokenKind::FatArrow => {
                    if depth == 0 {
                        return true;
                    }
                },
                TokenKind::Equals | TokenKind::Where | TokenKind::Semicolon => {
                    if depth == 0 {
                        return false;
                    }
                },
                TokenKind::Eof => return false,
                _ => {},
            }
            i = i + 1;
        }
        false
    }

    /// `ClassName atype*`.
    pub(crate) fn parse_constraint(&mut self) -> (r: Result<Constraint, ParseError>)
        requires
            old(self).wf(),
        ensures
            final(self).keeps(*old(self)),
            r matches Err(e) ==> parser_error(e.kind),
            r is Ok ==> old(self).pos < final(self).pos,
    {
        let (name, start) = self.expect_upper_ident()?;
        let mut args: Vec<Type> = Vec::new();
        while self.at_atype_start()
            invariant
                self.keeps(*old(self)),
                old(self).pos < self.pos,
            decreases self.remaining(),
        {
            let a = self.parse_atype()?;
            args.push(a);
        }
        let n = args.len();
        let end = if n > 0 {
            args[n - 1].span()
        } else {
            start
        };
        Ok(Constraint { class_name: name, args, span: start.merge(end) })
    }

    /// `btype (-> type)?`, the arrow associating to the right.
    pub(crate) fn parse_type(&mut self) -> (r: Result<Type, ParseError>)
        requires
            old(self).wf(),
        ensures
            final(self).keeps(*old(self)),
            r matches Err(e) ==> parser_error(e.kind),
            r is Ok ==> old(self).pos < final(self).pos,
        decreases old(self).remaining(), 3int,
    {
        let left = self.parse_btype()?;
        if matches!(self.peek_kind(), TokenKind::Arrow) {
            self.bump();
            let right = self.parse_type()?;
            let span = left.span().merge(right.span());
            Ok(Type::Fun { param: Box::new(left), result: Box::new(right), span })
        } else {
            Ok(left)
        }
    }

    /// `atype atype*`, application associating to the left.
    pub(crate) fn parse_btype(&mut self) -> (r: Result<Type, ParseError>)
        requires
            old(self).wf(),
        ensures
            final(self).keeps(*old(self)),
            r matches Err(e) ==> parser_error(e.kind),
            r is Ok ==> old(self).pos < final(self).pos,
        decreases old(self).remaining(), 2int,
    {
        let mut t = self.parse_atype()?;
        while self.at_atype_start()
            invariant
                self.keeps(*old(self)),
                old(self).pos < self.pos,
            decreases self.remaining(),
        {
            let arg = self.parse_atype()?;
            let span = t.span().merge(arg.span());
            t = Type::App { func: Box::new(t), arg: Box::new(arg), span };
        }
        Ok(t)
    }

    /// A type variable, a (qualified) constructor, a parenthesised type
    /// or a record type.
    pub(crate) fn parse_atype(&mut self) -> (r: Result<Type, ParseError>)
        requires
            old(self).wf(),
        ensures
            final(self).keeps(*old(self)),
            r matches Err(e) ==> parser_error(e.kind),
            r is Ok ==> old(self).pos < final(self).pos,
            r is Ok ==> atype_start(old(self).cur().kind),
        decreases old(self).remaining(), 1int,
    {
        let tok = self.peek().clone();
        match tok.kind {
            TokenKind::LowerIdent(name) => {
                self.bump();
                Ok(Type::Var { name, span: tok.span })
            },
            TokenKind::UpperIdent(first) => {
                self.bump();
                let mut segments: Vec<String> = Vec::new();
                segments.push(first);
                let mut span = tok.span;
                while matches!(self.peek_kind(), TokenKind::Dot) && matches!(
                    self.peek_at(1),
                    TokenKind::UpperIdent(_)
                )
                    invariant
                        self.keeps(*old(self)),
                        old(self).pos < self.pos,
                        segments@.len() >= 1,
                    decreases self.remaining(),
                {
                    self.bump();
                    let (seg, seg_span) = self.expect_upper_ident()?;
                    segments.push(seg);
                    span = span.merge(seg_span);
                }
                let name = segments.pop().unwrap();
                let module = if segments.len() == 0 {
                    None
                } else {
                    Some(ModName { segments, span: tok.span })
                };
                Ok(Type::Con { module, name, span })
            },
            TokenKind::LParen => {
                self.bump();
                if matches!(self.peek_kind(), TokenKind::RParen) {
                    return Err(
                        ParseError::new(
                            ParseErrorKind::UnsupportedFeature(
                                "`()` unit type (use `{}` empty record instead)",
                            ),
                            tok.span,
                        ),
                    );
                }
                let ty = self.parse_type()?;
                self.expect(&TokenKind::RParen, "`)`")?;
                Ok(ty)
            },
            TokenKind::LBrace => {
                self.bump();
                let mut fields: Vec<TypeField> = Vec::new();
                if !matches!(self.peek_kind(), TokenKind::RBrace) {
                    loop
                        invariant
                            self.keeps(*old(self)),
                            old(self).pos < self.pos,
                        decreases self.remaining(),
                    {
                        let (fname, _) = self.expect_lower_ident()?;
                        self.expect(&TokenKind::Colon, "`:`")?;
                        let fty = self.parse_type()?;
                        fields.push(TypeField(fname, fty));
                        if matches!(self.peek_kind(), TokenKind::Comma) {
                            self.bump();
                            continue ;
                        }
                        break ;
                    }
                }
                let end = self.expect(&TokenKind::RBrace, "`}`")?.span;
                Ok(Type::Record { fields, span: tok.span.merge(end) })
            },
            other => Err(
                ParseError::new(
                    ParseErrorKind::Expected { expected: "type", found: other },
                    tok.span,
                ),
            ),
        }
    }
}

} // verus!
