//! Expressions: the operator layer, application, atoms, and the
//! keyword forms.
use vstd::prelude::*;

use super::{
    op_symbol, op_table, parser_error, op_token_symbol, operator_info, operator_info_for_token, Assoc, OpInfo,
    ParseError, ParseErrorKind, Parser,
};
use crate::ast::{
    expr_span, CaseArm, DoStmt, Expr, ExprField, Literal, ModName, Pattern,
};
use crate::lexer::{Token, TokenKind};
use crate::span::Span;

verus! {

/// Tokens that can start an atom of an application.
pub open spec fn atom_start(k: TokenKind) -> bool {
    k is LowerIdent || k is UpperIdent || k is Int || k is Str || k is LParen || k is LBracket
        || k is LBrace || k is Backslash || k is Let || k is If || k is Case || k is Do
}

/// Scan for a `<-` at bracket depth 0, from token `i` on, before a
/// closing bracket at depth 0, or a `;` or `Eof` at depth 0.
pub open spec fn bind_ahead(toks: Seq<Token>, i: int, depth: int) -> bool
    decreases toks.len() - i,
{
    if i < 0 || i >= toks.len() {
        false
    } else {
        let k = toks[i].kind;
        if k is LParen || k is LBracket || k is LBrace {
            bind_ahead(toks, i + 1, depth + 1)
        } else if k is RParen || k is RBracket || k is RBrace {
            if depth == 0 {
                false
            } else {
                bind_ahead(toks, i + 1, depth - 1)
            }
        } else if k is LeftArrow && depth == 0 {
            true
        } else if (k is Semicolon || k is Eof) && depth == 0 {
            false
        } else {
            bind_ahead(toks, i + 1, depth)
        }
    }
}

/// Scan for a `|` at bracket depth 0, from token `i` on, before an `=`
/// at depth 0, a closing bracket below depth 0, or `Eof`.
pub open spec fn update_ahead(toks: Seq<Token>, i: int, depth: int) -> bool
    decreases toks.len() - i,
{
    if i < 0 || i >= toks.len() {
        false
    } else {
        let k = toks[i].kind;
        if k is LParen || k is LBracket || k is LBrace {
            update_ahead(toks, i + 1, depth + 1)
        } else if k is RParen || k is RBracket || k is RBrace {
            if depth == 0 {
                false
            } else {
                update_ahead(toks, i + 1, depth - 1)
            }
        } else if k is Bar && depth == 0 {
            true
        } else if k is Equals && depth == 0 {
            false
        } else if k is Eof {
            false
        } else {
            update_ahead(toks, i + 1, depth)
        }
    }
}

impl<'t> Parser<'t> {
    /// A full expression.
    pub(crate) fn parse_expr(&mut self) -> (r: Result<Expr, ParseError>)
        requires
            old(self).wf(),
        ensures
            final(self).keeps(*old(self)),
            r matches Err(e) ==> parser_error(e.kind),
            r is Ok ==> old(self).pos < final(self).pos,
        decreases old(self).remaining(), 16int,
    {
        self.parse_binop_expr(0)
    }

    /// Operator expressions whose operators are all of tier `min_prec`
    /// or tighter: left-associative tiers group to the left, right ones
    /// to the right, and a comparison may not follow a comparison.
    pub(crate) fn parse_binop_expr(&mut self, min_prec: u8) -> (r: Result<Expr, ParseError>)
        requires
            old(self).wf(),
        ensures
            final(self).keeps(*old(self)),
            r matches Err(e) ==> parser_error(e.kind),
            r is Ok ==> old(self).pos < final(self).pos,
        decreases old(self).remaining(), 15int,
    {
        let mut left = self.parse_unary_expr()?;
        loop
            invariant
                self.keeps(*old(self)),
                old(self).pos < self.pos,
            decreases self.remaining(),
        {
            let op_info = match self.current_binop() {
                Some(i) => i,
                None => break ,
            };
            if op_info.prec < min_prec {
                break ;
            }
            if op_info.assoc == Assoc::NonAssoc {
                if let Expr::BinOp { op: l_op, .. } = &left {
                    if let Some(o) = operator_info(l_op) {
                        if o.assoc == Assoc::NonAssoc && o.prec == op_info.prec {
                            let span = self.peek().span;
                            return Err(ParseError::new(ParseErrorKind::NonAssociativeChain, span));
                        }
                    }
                }
            }
            let (op_symbol, _op_span) = self.take_operator_token()?;
            let next_min = match op_info.assoc {
                Assoc::Left => op_info.prec + 1,
                Assoc::Right => op_info.prec,
                Assoc::NonAssoc => op_info.prec + 1,
            };
            let right = self.parse_binop_expr(next_min)?;
            let span = left.span().merge(right.span());
            left = Expr::BinOp { op: op_symbol, left: Box::new(left), right: Box::new(right), span };
        }
        Ok(left)
    }

    /// The table entry of the operator under the cursor, if any.
    pub(crate) fn current_binop(&self) -> (r: Option<OpInfo>)
        requires
            self.wf(),
        ensures
            op_symbol(self.cur().kind) is None ==> r is None,
            op_symbol(self.cur().kind) matches Some(s) ==> r == op_table(s),
            r matches Some(i) ==> 1 <= i.prec <= 7,
    {
        operator_info_for_token(self.peek_kind())
    }

    /// Take an operator token, giving its symbol and span.
    pub(crate) fn take_operator_token(&mut self) -> (r: Result<(String, Span), ParseError>)
        requires
            old(self).wf(),
        ensures
            final(self).keeps(*old(self)),
            r matches Err(e) ==> parser_error(e.kind),
            r matches Ok(p) ==> op_symbol(old(self).cur().kind) == Some(p.0@) && p.1 == old(
                self,
            ).cur().span && final(self).pos == old(self).pos + 1,
            r is Err ==> op_symbol(old(self).cur().kind) is None,
    {
        let tok = self.peek().clone();
        match op_token_symbol(&tok.kind) {
            Some(sym) => {
                self.bump();
                Ok((sym, tok.span))
            },
            None => Err(
                ParseError::new(
                    ParseErrorKind::Expected { expected: "operator", found: tok.kind },
                    tok.span,
                ),
            ),
        }
    }

    /// An application, or `-` before an application (kept as `Neg`).
    pub(crate) fn parse_unary_expr(&mut self) -> (r: Result<Expr, ParseError>)
        requires
            old(self).wf(),
        ensures
            final(self).keeps(*old(self)),
            r matches Err(e) ==> parser_error(e.kind),
            r is Ok ==> old(self).pos < final(self).pos,
        decreases old(self).remaining(), 14int,
    {
        if matches!(self.peek_kind(), TokenKind::Minus) {
            let start = self.bump().span;
            let inner = self.parse_app_expr()?;
            let span = start.merge(inner.span());
            return Ok(Expr::Neg { value: Box::new(inner), span });
        }
        self.parse_app_expr()
    }

    /// Left-associative function application.
    pub(crate) fn parse_app_expr(&mut self) -> (r: Result<Expr, ParseError>)
        requires
            old(self).wf(),
        ensures
            final(self).keeps(*old(self)),
            r matches Err(e) ==> parser_error(e.kind),
            r is Ok ==> old(self).pos < final(self).pos,
        decreases old(self).remaining(), 13int,
    {
        let mut head = self.parse_field_expr()?;
        while self.at_atom_start()
            invariant
                self.keeps(*old(self)),
                old(self).pos < self.pos,
            decreases self.remaining(),
        {
            let arg = self.parse_field_expr()?;
            let span = head.span().merge(arg.span());
            head = Expr::App { func: Box::new(head), arg: Box::new(arg), span };
        }
        Ok(head)
    }

    /// An atom followed by `.field` selections.
    pub(crate) fn parse_field_expr(&mut self) -> (r: Result<Expr, ParseError>)
        requires
            old(self).wf(),
        ensures
            final(self).keeps(*old(self)),
            r matches Err(e) ==> parser_error(e.kind),
            r is Ok ==> old(self).pos < final(self).pos,
        decreases old(self).remaining(), 12int,
    {
        let mut e = self.parse_atom()?;
        while matches!(self.peek_kind(), TokenKind::Dot) && matches!(
            self.peek_at(1),
            TokenKind::LowerIdent(_)
        )
            invariant
                self.keeps(*old(self)),
                old(self).pos < self.pos,
            decreases self.remaining(),
        {
            self.bump();
            let (fname, fspan) = self.expect_lower_ident()?;
            let span = e.span().merge(fspan);
            e = Expr::FieldAccess { record: Box::new(e), field: fname, span };
        }
        Ok(e)
    }

    pub(crate) fn at_atom_start(&self) -> (r: bool)
        requires
            self.wf(),
        ensures
            r == atom_start(self.cur().kind),
    {
        matches!(
            self.peek_kind(),
            TokenKind::LowerIdent(_) | TokenKind::UpperIdent(_) | TokenKind::Int(_)
                | TokenKind::Str(_) | TokenKind::LParen | TokenKind::LBracket | TokenKind::LBrace
                | TokenKind::Backslash | TokenKind::Let | TokenKind::If | TokenKind::Case
                | TokenKind::Do
        )
    }

    pub(crate) fn parse_atom(&mut self) -> (r: Result<Expr, ParseError>)
        requires
            old(self).wf(),
        ensures
            final(self).keeps(*old(self)),
            r matches Err(e) ==> parser_error(e.kind),
            r is Ok ==> old(self).pos < final(self).pos,
            r is Ok ==> atom_start(old(self).cur().kind),
        decreases old(self).remaining(), 11int,
    {
        let tok = self.peek().clone();
        match tok.kind {
            TokenKind::Int(v) => {
                self.bump();
                Ok(Expr::Lit(Literal::Int(v), tok.span))
            },
            TokenKind::Str(v) => {
                self.bump();
                Ok(Expr::Lit(Literal::Str(v), tok.span))
            },
            TokenKind::LowerIdent(n) => {
                self.bump();
                Ok(Expr::Var { module: None, name: n, span: tok.span })
            },
            TokenKind::UpperIdent(_) => self.parse_upper_ident_expr(),
            TokenKind::Backslash => self.parse_lambda(),
            TokenKind::Let => self.parse_let_expr(),
            TokenKind::If => self.parse_if_expr(),
            TokenKind::Case => self.parse_case_expr(),
            TokenKind::Do => self.parse_do_expr(),
            TokenKind::LParen => self.parse_paren_expr(),
            TokenKind::LBracket => self.parse_list_expr(),
            TokenKind::LBrace => self.parse_record_expr(),
            other => Err(
                ParseError::new(
                    ParseErrorKind::Expected { expected: "expression", found: other },
                    tok.span,
                ),
            ),
        }
    }

    /// `Foo`, `Foo.Bar.Ctor` or `Foo.Bar.value`.
    pub(crate) fn parse_upper_ident_expr(&mut self) -> (r: Result<Expr, ParseError>)
        requires
            old(self).wf(),
        ensures
            final(self).keeps(*old(self)),
            r matches Err(e) ==> parser_error(e.kind),
            r is Ok ==> old(self).pos < final(self).pos,
    {
        let start_span = self.peek().span;
        let (first, first_span) = self.expect_upper_ident()?;
        let mut segments: Vec<String> = Vec::new();
        segments.push(first);
        let mut span = first_span;
        while matches!(self.peek_kind(), TokenKind::Dot)
            invariant
                self.keeps(*old(self)),
                old(self).pos < self.pos,
                segments@.len() >= 1,
            decreases self.remaining(),
        {
            match self.peek_at(1) {
                TokenKind::UpperIdent(_) => {
                    self.bump();
                    let (seg, seg_span) = self.expect_upper_ident()?;
                    segments.push(seg);
                    span = span.merge(seg_span);
                },
                TokenKind::LowerIdent(_) => {
                    self.bump();
                    let (name, n_span) = self.expect_lower_ident()?;
                    let module = ModName { segments, span: start_span };
                    return Ok(Expr::Var { module: Some(module), name, span: span.merge(n_span) });
                },
                _ => break ,
            }
        }
        let last = segments.pop().unwrap();
        let module = if segments.len() == 0 {
            None
        } else {
            Some(ModName { segments, span: start_span })
        };
        Ok(Expr::Var { module, name: last, span })
    }

    /// `\p1 p2 -> body`.
    pub(crate) fn parse_lambda(&mut self) -> (r: Result<Expr, ParseError>)
        requires
            old(self).wf(),
        ensures
            final(self).keeps(*old(self)),
            r matches Err(e) ==> parser_error(e.kind),
            r is Ok ==> old(self).pos < final(self).pos,
        decreases old(self).remaining(), 10int,
    {
        let start = self.expect(&TokenKind::Backslash, "`\\`")?.span;
        let mut params: Vec<Pattern> = Vec::new();
        while !matches!(self.peek_kind(), TokenKind::Arrow)
            invariant
                self.keeps(*old(self)),
                old(self).pos < self.pos,
            decreases self.remaining(),
        {
            let p = self.parse_apat()?;
            params.push(p);
        }
        self.expect(&TokenKind::Arrow, "`->`")?;
        let body = self.parse_expr()?;
        let span = start.merge(body.span());
        Ok(Expr::Lambda { params, body: Box::new(body), span })
    }

    /// `let name pat... = value in body`; the layout pass has wrapped the
    /// binding in a block closed before `in`.
    pub(crate) fn parse_let_expr(&mut self) -> (r: Result<Expr, ParseError>)
        requires
            old(self).wf(),
        ensures
            final(self).keeps(*old(self)),
            r matches Err(e) ==> parser_error(e.kind),
            r is Ok ==> old(self).pos < final(self).pos,
        decreases old(self).remaining(), 10int,
    {
        let start = self.expect(&TokenKind::Let, "`let`")?.span;
        self.expect(&TokenKind::LBrace, "`{`")?;
        while matches!(self.peek_kind(), TokenKind::Semicolon)
            invariant
                self.keeps(*old(self)),
                old(self).pos < self.pos,
            decreases self.remaining(),
        {
            self.bump();
        }
        let binding_start = self.peek().clone();
        let op_form = matches!(binding_start.kind, TokenKind::LParen) && op_token_symbol(
            self.peek_at(1),
        ).is_some() && matches!(self.peek_at(2), TokenKind::RParen);
        let (name, operator) = if op_form {
            self.bump();
            let op = self.expect_operator_symbol()?;
            self.expect(&TokenKind::RParen, "`)`")?;
            (op, true)
        } else {
            match binding_start.kind {
                TokenKind::LowerIdent(n) => {
                    self.bump();
                    (n, false)
                },
                other => {
                    return Err(
                        ParseError::new(
                            ParseErrorKind::Expected { expected: "let binding name", found: other },
                            binding_start.span,
                        ),
                    );
                },
            }
        };
        let mut params: Vec<Pattern> = Vec::new();
        while !matches!(self.peek_kind(), TokenKind::Equals)
            invariant
                self.keeps(*old(self)),
                old(self).pos < self.pos,
            decreases self.remaining(),
        {
            let p = self.parse_apat()?;
            params.push(p);
        }
        self.expect(&TokenKind::Equals, "`=`")?;
        let value = self.parse_expr()?;
        while matches!(self.peek_kind(), TokenKind::Semicolon)
            invariant
                self.keeps(*old(self)),
                old(self).pos < self.pos,
            decreases self.remaining(),
        {
            self.bump();
        }
        self.expect(&TokenKind::RBrace, "`}`")?;
        self.expect(&TokenKind::In, "`in`")?;
        let body = self.parse_expr()?;
        let span = start.merge(body.span());
        Ok(Expr::Let { name, operator, params, value: Box::new(value), body: Box::new(body), span })
    }

    /// `if c then t else f`.
    pub(crate) fn parse_if_expr(&mut self) -> (r: Result<Expr, ParseError>)
        requires
            old(self).wf(),
        ensures
            final(self).keeps(*old(self)),
            r matches Err(e) ==> parser_error(e.kind),
            r is Ok ==> old(self).pos < final(self).pos,
        decreases old(self).remaining(), 10int,
    {
        let start = self.expect(&TokenKind::If, "`if`")?.span;
        let cond = self.parse_expr()?;
        self.expect(&TokenKind::Then, "`then`")?;
        let then_branch = self.parse_expr()?;
        self.expect(&TokenKind::Else, "`else`")?;
        let else_branch = self.parse_expr()?;
        let span = start.merge(else_branch.span());
        Ok(
            Expr::If {
                cond: Box::new(cond),
                then_branch: Box::new(then_branch),
                else_branch: Box::new(else_branch),
                span,
            },
        )
    }

    /// `case e of { pat -> body; ... }`.
    pub(crate) fn parse_case_expr(&mut self) -> (r: Result<Expr, ParseError>)
        requires
            old(self).wf(),
        ensures
            final(self).keeps(*old(self)),
            r matches Err(e) ==> parser_error(e.kind),
            r is Ok ==> old(self).pos < final(self).pos,
        decreases old(self).remaining(), 10int,
    {
        let start = self.expect(&TokenKind::Case, "`case`")?.span;
        let scrutinee = self.parse_expr()?;
        self.expect(&TokenKind::Of, "`of`")?;
        self.expect(&TokenKind::LBrace, "`{`")?;
        let mut arms: Vec<CaseArm> = Vec::new();
        loop
            invariant
                self.keeps(*old(self)),
                old(self).pos < self.pos,
            decreases self.remaining(),
        {
            let ghost p0 = self.pos;
            while matches!(self.peek_kind(), TokenKind::Semicolon)
                invariant
                    self.keeps(*old(self)),
                    old(self).pos < self.pos,
                    p0 <= self.pos,
                decreases self.remaining(),
            {
                self.bump();
            }
            if matches!(self.peek_kind(), TokenKind::RBrace | TokenKind::Eof) {
                break ;
            }
            let pattern = self.parse_pat()?;
            self.expect(&TokenKind::Arrow, "`->`")?;
            let body = self.parse_expr()?;
            let span = pattern.span().merge(body.span());
            arms.push(CaseArm { pattern, body, span });
            if matches!(self.peek_kind(), TokenKind::Semicolon) {
                self.bump();
            }
        }
        let end = self.expect(&TokenKind::RBrace, "`}`")?.span;
        Ok(Expr::Case { scrutinee: Box::new(scrutinee), arms, span: start.merge(end) })
    }

    /// `do { stmt; ... }`.
    pub(crate) fn parse_do_expr(&mut self) -> (r: Result<Expr, ParseError>)
        requires
            old(self).wf(),
        ensures
            final(self).keeps(*old(self)),
            r matches Err(e) ==> parser_error(e.kind),
            r is Ok ==> old(self).pos < final(self).pos,
        decreases old(self).remaining(), 10int,
    {
        let start = self.expect(&TokenKind::Do, "`do`")?.span;
        self.expect(&TokenKind::LBrace, "`{`")?;
        let mut stmts: Vec<DoStmt> = Vec::new();
        loop
            invariant
                self.keeps(*old(self)),
                old(self).pos < self.pos,
            decreases self.remaining(),
        {
            let ghost p0 = self.pos;
            while matches!(self.peek_kind(), TokenKind::Semicolon)
                invariant
                    self.keeps(*old(self)),
                    old(self).pos < self.pos,
                    p0 <= self.pos,
                decreases self.remaining(),
            {
                self.bump();
            }
            if matches!(self.peek_kind(), TokenKind::RBrace | TokenKind::Eof) {
                break ;
            }
            let s = self.parse_do_stmt()?;
            stmts.push(s);
            if matches!(self.peek_kind(), TokenKind::Semicolon) {
                self.bump();
            }
        }
        let end = self.expect(&TokenKind::RBrace, "`}`")?.span;
        Ok(Expr::Do { stmts, span: start.merge(end) })
    }

    /// `pat <- e`, `let x = e`, or a bare expression.
    pub(crate) fn parse_do_stmt(&mut self) -> (r: Result<DoStmt, ParseError>)
        requires
            old(self).wf(),
        ensures
            final(self).keeps(*old(self)),
            r matches Err(e) ==> parser_error(e.kind),
            r is Ok ==> old(self).pos < final(self).pos,
        decreases old(self).remaining(), 17int,
    {
        if matches!(self.peek_kind(), TokenKind::Let) {
            let start = self.bump().span;
            let used_block = matches!(self.peek_kind(), TokenKind::LBrace);
            if used_block {
                self.bump();
            }
            let binding_start = self.peek().clone();
            let (name, operator) = match binding_start.kind {
                TokenKind::LowerIdent(n) => {
                    self.bump();
                    (n, false)
                },
                other => {
                    return Err(
                        ParseError::new(
                            ParseErrorKind::Expected { expected: "let binding name", found: other },
                            binding_start.span,
                        ),
                    );
                },
            };
            let mut params: Vec<Pattern> = Vec::new();
            while !matches!(self.peek_kind(), TokenKind::Equals)
                invariant
                    self.keeps(*old(self)),
                    old(self).pos < self.pos,
                decreases self.remaining(),
            {
                let p = self.parse_apat()?;
                params.push(p);
            }
            self.expect(&TokenKind::Equals, "`=`")?;
            let value = self.parse_expr()?;
            if used_block {
                while matches!(self.peek_kind(), TokenKind::Semicolon)
                    invariant
                        self.keeps(*old(self)),
                        old(self).pos < self.pos,
                    decreases self.remaining(),
                {
                    self.bump();
                }
                self.expect(&TokenKind::RBrace, "`}`")?;
            }
            let span = start.merge(value.span());
            return Ok(DoStmt::Let { name, operator, params, value, span });
        }
        if self.looks_like_bind_stmt() {
            let pattern = self.parse_pat()?;
            self.expect(&TokenKind::LeftArrow, "`<-`")?;
            let expr = self.parse_expr()?;
            let span = pattern.span().merge(expr.span());
            return Ok(DoStmt::Bind { pattern, expr, span });
        }
        let e = self.parse_expr()?;
        Ok(DoStmt::Expr(e))
    }

    /// Whether a `<-` lies ahead at bracket depth 0 within the statement.
    pub(crate) fn looks_like_bind_stmt(&self) -> (r: bool)
        requires
            self.wf(),
        ensures
            r == bind_ahead(self.tokens@, self.pos as int, 0),
    {
        let mut depth: usize = 0;
        let mut i = self.pos;
        while i < self.tokens.len()
            invariant
                self.wf(),
                self.pos <= i <= self.tokens@.len(),
                depth <= i - self.pos,
                bind_ahead(self.tokens@, i as int, depth as int) == bind_ahead(
                    self.tokens@,
                    self.pos as int,
                    0,
                ),
            decreases self.tokens@.len() - i,
        {
            match &self.tokens[i].kind {
                TokenKind::LParen | TokenKind::LBracket | TokenKind::LBrace => {
                    depth = depth + 1;
                },
                TokenKind::RParen | TokenKind::RBracket | TokenKind::RBrace => {
                    if depth == 0 {
                        return false;
                    }
                    depth = depth - 1;
                },
                TokenKind::LeftArrow => {
                    if depth == 0 {
                        return true;
                    }
                },
                TokenKind::Semicolon | TokenKind::Eof => {
                    if depth == 0 {
                        return false;
                    }
                },
                _ => {},
            }
            i = i + 1;
        }
        false
    }

    /// `(op)`, or a parenthesised expression.
    pub(crate) fn parse_paren_expr(&mut self) -> (r: Result<Expr, ParseError>)
        requires
            old(self).wf(),
        ensures
            final(self).keeps(*old(self)),
            r matches Err(e) ==> parser_error(e.kind),
            r is Ok ==> old(self).pos < final(self).pos,
        decreases old(self).remaining(), 10int,
    {
        let start = self.expect(&TokenKind::LParen, "`(`")?.span;
        if matches!(self.peek_at(1), TokenKind::RParen) {
            if let Some(sym) = op_token_symbol(self.peek_kind()) {
                self.bump();
                let end = self.expect(&TokenKind::RParen, "`)`")?.span;
                return Ok(Expr::OpRef { symbol: sym, span: start.merge(end) });
            }
        }
        if matches!(self.peek_kind(), TokenKind::RParen) {
            let end = self.bump().span;
            return Err(
                ParseError::new(
                    ParseErrorKind::UnsupportedFeature("`()` empty tuple (use `{}`)"),
                    start.merge(end),
                ),
            );
        }
        let e = self.parse_expr()?;
        self.expect(&TokenKind::RParen, "`)`")?;
        Ok(e)
    }

    /// `[e, ...]`.
    pub(crate) fn parse_list_expr(&mut self) -> (r: Result<Expr, ParseError>)
        requires
            old(self).wf(),
        ensures
            final(self).keeps(*old(self)),
            r matches Err(e) ==> parser_error(e.kind),
            r is Ok ==> old(self).pos < final(self).pos,
        decreases old(self).remaining(), 10int,
    {
        let start = self.expect(&TokenKind::LBracket, "`[`")?.span;
        let mut items: Vec<Expr> = Vec::new();
        if !matches!(self.peek_kind(), TokenKind::RBracket) {
            loop
                invariant
                    self.keeps(*old(self)),
                    old(self).pos < self.pos,
                decreases self.remaining(),
            {
                let e = self.parse_expr()?;
                items.push(e);
                if matches!(self.peek_kind(), TokenKind::Comma) {
                    self.bump();
                    continue ;
                }
                break ;
            }
        }
        let end = self.expect(&TokenKind::RBracket, "`]`")?.span;
        Ok(Expr::ListLit { items, span: start.merge(end) })
    }

    /// `{}`, `{ f = e, ... }` or `{ e | f = e, ... }`.
    pub(crate) fn parse_record_expr(&mut self) -> (r: Result<Expr, ParseError>)
        requires
            old(self).wf(),
        ensures
            final(self).keeps(*old(self)),
            r matches Err(e) ==> parser_error(e.kind),
            r is Ok ==> old(self).pos < final(self).pos,
        decreases old(self).remaining(), 10int,
    {
        let start = self.expect(&TokenKind::LBrace, "`{`")?.span;
        if matches!(self.peek_kind(), TokenKind::RBrace) {
            let end = self.bump().span;
            return Ok(Expr::RecordLit { fields: Vec::new(), span: start.merge(end) });
        }
        if self.looks_like_record_update() {
            let record = self.parse_expr()?;
            self.expect(&TokenKind::Bar, "`|`")?;
            let fields = self.parse_record_field_bindings()?;
            let end = self.expect(&TokenKind::RBrace, "`}`")?.span;
            Ok(Expr::RecordUpdate { record: Box::new(record), fields, span: start.merge(end) })
        } else {
            let fields = self.parse_record_field_bindings()?;
            let end = self.expect(&TokenKind::RBrace, "`}`")?.span;
            Ok(Expr::RecordLit { fields, span: start.merge(end) })
        }
    }

    /// Whether a `|` lies ahead at bracket depth 0 before an `=` there.
    pub(crate) fn looks_like_record_update(&self) -> (r: bool)
        requires
            self.wf(),
        ensures
            r == update_ahead(self.tokens@, self.pos as int, 0),
    {
        let mut depth: usize = 0;
        let mut i = self.pos;
        while i < self.tokens.len()
            invariant
                self.wf(),
                self.pos <= i <= self.tokens@.len(),
                depth <= i - self.pos,
                update_ahead(self.tokens@, i as int, depth as int) == update_ahead(
                    self.tokens@,
                    self.pos as int,
                    0,
                ),
            decreases self.tokens@.len() - i,
        {
            match &self.tokens[i].kind {
                TokenKind::LParen | TokenKind::LBracket | TokenKind::LBrace => {
                    depth = depth + 1;
                },
                TokenKind::RParen | TokenKind::RBracket | TokenKind::RBrace => {
                    if depth == 0 {
                        return false;
                    }
                    depth = depth - 1;
                },
                TokenKind::Bar => {
                    if depth == 0 {
                        return true;
                    }
                },
                TokenKind::Equals => {
                    if depth == 0 {
                        return false;
                    }
                },
                TokenKind::Eof => return false,
                _ => {},
            }
            i = i + 1;
        }
        false
    }

    /// `f = e, ...` (at least one binding).
    pub(crate) fn parse_record_field_bindings(&mut self) -> (r: Result<Vec<ExprField>, ParseError>)
        requires
            old(self).wf(),
        ensures
            final(self).keeps(*old(self)),
            r matches Err(e) ==> parser_error(e.kind),
            r is Ok ==> old(self).pos < final(self).pos,
        decreases old(self).remaining(), 10int,
    {
        let mut out: Vec<ExprField> = Vec::new();
        let (name, _) = self.expect_lower_ident()?;
        self.expect(&TokenKind::Equals, "`=`")?;
        let value = self.parse_expr()?;
        out.push(ExprField(name, value));
        while matches!(self.peek_kind(), TokenKind::Comma)
            invariant
                self.keeps(*old(self)),
                old(self).pos < self.pos,
            decreases self.remaining(),
        {
            self.bump();
            let (name, _) = self.expect_lower_ident()?;
            self.expect(&TokenKind::Equals, "`=`")?;
            let value = self.parse_expr()?;
            out.push(ExprField(name, value));
        }
        Ok(out)
    }
}

} // verus!
