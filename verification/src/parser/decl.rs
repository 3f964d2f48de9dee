//! The module header, imports and exports, and top-level declarations.
use vstd::prelude::*;

use super::{op_symbol, op_token_symbol, parser_error, ParseError, ParseErrorKind, Parser};
use crate::ast::{
    ClassDecl, ClassItem, Constraint, DataCtor, DataDecl, Decl, ExportItem, Expr, ImportDecl,
    ImportItem, ImportItems, InstanceDecl, ModName, Module, ModuleHeader, Param, Pattern,
    RubyEmbedDecl, Type, TypeAlias, ValueClause,
};
use crate::lexer::scan::text_is;
use crate::lexer::{Token, TokenKind};
use crate::span::Span;

verus! {

/// Tokens that end the parameter list of a clause: `=`, `;`, `}`,
/// `Eof`, or the `:=` of a Ruby embedding.
pub open spec fn clause_body_start(k: TokenKind) -> bool {
    k is Equals || k is Semicolon || k is RBrace || k is Eof || ruby_embed_op(k)
}

/// The `:=` operator of a Ruby embedding.
pub open spec fn ruby_embed_op(k: TokenKind) -> bool {
    k matches TokenKind::Op(s) && s@ == ":="@
}

/// Operator tokens that may head an infix clause `x op y = e`.
pub open spec fn infix_method_op(k: TokenKind) -> bool {
    k is Plus || k is Minus || k is Star || k is Slash || k is Percent || k is EqEq || k is SlashEq
        || k is Lt || k is LtEq || k is Gt || k is GtEq || k is AndAnd || k is OrOr || k is PlusPlus
        || k is DoubleColon || k is Op
}

impl<'t> Parser<'t> {
    /// The whole module: an optional header, then imports and
    /// declarations, inside the layout pass's top-level block.
    pub(crate) fn parse_module(&mut self) -> (r: Result<Module, ParseError>)
        requires
            old(self).wf(),
        ensures
            final(self).keeps(*old(self)),
            r matches Err(e) ==> parser_error(e.kind),
            r is Ok ==> old(self).cur().kind is LBrace,
    {
        let start = self.peek().span;
        self.expect(&TokenKind::LBrace, "`{`")?;
        let header = if matches!(self.peek_kind(), TokenKind::Module) {
            Some(self.parse_module_header()?)
        } else {
            None
        };
        let mut imports: Vec<ImportDecl> = Vec::new();
        let mut decls: Vec<Decl> = Vec::new();
        self.parse_decls_into(&mut imports, &mut decls)?;
        while matches!(self.peek_kind(), TokenKind::RBrace)
            invariant
                self.keeps(*old(self)),
            decreases self.remaining(),
        {
            self.bump();
        }
        while matches!(self.peek_kind(), TokenKind::Semicolon)
            invariant
                self.keeps(*old(self)),
            decreases self.remaining(),
        {
            self.bump();
        }
        let end = self.peek().span;
        Ok(Module { header, imports, decls, span: start.merge(end) })
    }

    /// `module Name (exports)? where {`.
    pub(crate) fn parse_module_header(&mut self) -> (r: Result<ModuleHeader, ParseError>)
        requires
            old(self).wf(),
        ensures
            final(self).keeps(*old(self)),
            r matches Err(e) ==> parser_error(e.kind),
            r is Ok ==> old(self).pos < final(self).pos,
    {
        let start = self.expect(&TokenKind::Module, "`module`")?.span;
        let name = self.parse_mod_name()?;
        let exports = if matches!(self.peek_kind(), TokenKind::LParen) {
            Some(self.parse_export_list()?)
        } else {
            None
        };
        self.expect(&TokenKind::Where, "`where`")?;
        self.expect(&TokenKind::LBrace, "`{` after `where`")?;
        let end = self.peek().span;
        Ok(ModuleHeader { name, exports, span: start.merge(end) })
    }

    /// A dotted module name `A.B.C`: the segments are the texts of the
    /// upper-case identifiers taken, and the span covers them.
    pub(crate) fn parse_mod_name(&mut self) -> (r: Result<ModName, ParseError>)
        requires
            old(self).wf(),
        ensures
            final(self).keeps(*old(self)),
            r matches Err(e) ==> parser_error(e.kind),
            r is Ok ==> old(self).pos < final(self).pos,
            r matches Ok(m) ==> m.segments@.len() >= 1 && old(self).cur().kind
                == TokenKind::UpperIdent(m.segments@[0]),
            r is Err ==> !(old(self).cur().kind is UpperIdent) || final(self).pos > old(self).pos,
    {
        let (first, first_span) = self.expect_upper_ident()?;
        let mut segments: Vec<String> = Vec::new();
        segments.push(first);
        let mut span = first_span;
        while matches!(self.peek_kind(), TokenKind::Dot) && matches!(
            self.peek_at(1),
            TokenKind::UpperIdent(_)
        )
            invariant
                self.keeps(*old(self)),
                old(self).pos < self.pos,
                segments@.len() >= 1,
                old(self).cur().kind == TokenKind::UpperIdent(segments@[0]),
            decreases self.remaining(),
        {
            self.bump();
            let (seg, seg_span) = self.expect_upper_ident()?;
            segments.push(seg);
            span = span.merge(seg_span);
        }
        Ok(ModName { segments, span })
    }

    /// `( item, ... )` or `()`.
    pub(crate) fn parse_export_list(&mut self) -> (r: Result<Vec<ExportItem>, ParseError>)
        requires
            old(self).wf(),
        ensures
            final(self).keeps(*old(self)),
            r matches Err(e) ==> parser_error(e.kind),
            r is Ok ==> old(self).pos < final(self).pos,
    {
        self.expect(&TokenKind::LParen, "`(`")?;
        let mut items: Vec<ExportItem> = Vec::new();
        if matches!(self.peek_kind(), TokenKind::RParen) {
            self.bump();
            return Ok(items);
        }
        loop
            invariant
                self.keeps(*old(self)),
                old(self).pos < self.pos,
            decreases self.remaining(),
        {
            let it = self.parse_export_item()?;
            items.push(it);
            if matches!(self.peek_kind(), TokenKind::Comma) {
                self.bump();
                continue ;
            }
            break ;
        }
        self.expect(&TokenKind::RParen, "`)`")?;
        Ok(items)
    }

    /// `Name(..)`, `Name()`, `Name(C, ...)` or `Name`, after the name.
    /// Gives `None` for a bare name, `Some(None)` for `(..)`, and the
    /// constructor list otherwise.
    fn parse_type_item_tail(&mut self) -> (r: Result<Option<Option<Vec<String>>>, ParseError>)
        requires
            old(self).wf(),
        ensures
            final(self).keeps(*old(self)),
            r matches Err(e) ==> parser_error(e.kind),
            r matches Ok(None) ==> final(self).pos == old(self).pos && !(old(self).cur().kind is LParen),
    {
        if matches!(self.peek_kind(), TokenKind::LParen) {
            self.bump();
            if matches!(self.peek_kind(), TokenKind::DotDot) {
                self.bump();
                self.expect(&TokenKind::RParen, "`)`")?;
                Ok(Some(None))
            } else if matches!(self.peek_kind(), TokenKind::RParen) {
                self.bump();
                Ok(Some(Some(Vec::new())))
            } else {
                let mut ctors: Vec<String> = Vec::new();
                loop
                    invariant
                        self.keeps(*old(self)),
                        old(self).pos < self.pos,
                    decreases self.remaining(),
                {
                    let (c, _) = self.expect_upper_ident()?;
                    ctors.push(c);
                    if matches!(self.peek_kind(), TokenKind::Comma) {
                        self.bump();
                        continue ;
                    }
                    break ;
                }
                self.expect(&TokenKind::RParen, "`)`")?;
                Ok(Some(Some(ctors)))
            }
        } else {
            Ok(None)
        }
    }

    /// One entry of an export list.
    pub(crate) fn parse_export_item(&mut self) -> (r: Result<ExportItem, ParseError>)
        requires
            old(self).wf(),
        ensures
            final(self).keeps(*old(self)),
            r matches Err(e) ==> parser_error(e.kind),
            r is Ok ==> old(self).pos < final(self).pos,
    {
        let tok = self.peek().clone();
        match tok.kind {
            TokenKind::LowerIdent(n) => {
                self.bump();
                Ok(ExportItem::Value { name: n, operator: false, span: tok.span })
            },
            TokenKind::LParen => {
                let start = self.bump().span;
                let op = self.expect_operator_symbol()?;
                let end = self.expect(&TokenKind::RParen, "`)`")?.span;
                Ok(ExportItem::Value { name: op, operator: true, span: start.merge(end) })
            },
            TokenKind::UpperIdent(n) => {
                self.bump();
                match self.parse_type_item_tail()? {
                    None => Ok(ExportItem::Type { name: n, span: tok.span }),
                    Some(None) => Ok(ExportItem::TypeAll { name: n, span: tok.span }),
                    Some(Some(ctors)) => Ok(ExportItem::TypeWith { name: n, ctors, span: tok.span }),
                }
            },
            TokenKind::Class => {
                self.bump();
                let (n, n_span) = self.expect_upper_ident()?;
                if matches!(self.peek_kind(), TokenKind::LParen) {
                    self.bump();
                    self.expect(&TokenKind::DotDot, "`..`")?;
                    self.expect(&TokenKind::RParen, "`)`")?;
                    Ok(ExportItem::ClassAll { name: n, span: tok.span.merge(n_span) })
                } else {
                    Ok(ExportItem::Class { name: n, span: tok.span.merge(n_span) })
                }
            },
            TokenKind::Module => {
                self.bump();
                let name = self.parse_mod_name()?;
                let sp = name.span;
                Ok(ExportItem::ReExport { name, span: tok.span.merge(sp) })
            },
            other => Err(
                ParseError::new(
                    ParseErrorKind::Expected { expected: "export item", found: other },
                    tok.span,
                ),
            ),
        }
    }

    /// Imports and declarations up to the closing `}` or `Eof` of the
    /// current block, separated by `;`.
    pub(crate) fn parse_decls_into(
        &mut self,
        imports: &mut Vec<ImportDecl>,
        decls: &mut Vec<Decl>,
    ) -> (r: Result<(), ParseError>)
        requires
            old(self).wf(),
        ensures
            final(self).keeps(*old(self)),
            r matches Err(e) ==> parser_error(e.kind),
            r is Ok ==> final(self).cur().kind is RBrace || final(self).cur().kind is Eof,
    {
        loop
            invariant
                self.keeps(*old(self)),
            decreases self.remaining(),
        {
            let ghost p0 = self.pos;
            while matches!(self.peek_kind(), TokenKind::Semicolon)
                invariant
                    self.keeps(*old(self)),
                    p0 <= self.pos,
                decreases self.remaining(),
            {
                self.bump();
            }
            if matches!(self.peek_kind(), TokenKind::RBrace | TokenKind::Eof) {
                return Ok(());
            }
            if matches!(self.peek_kind(), TokenKind::Import) {
                let i = self.parse_import()?;
                imports.push(i);
            } else {
                let d = self.parse_decl()?;
                decls.push(d);
            }
            if matches!(self.peek_kind(), TokenKind::Semicolon) {
                self.bump();
            }
        }
    }

    /// `import qualified? Name (as Alias)? (items | hiding items)?`.
    pub(crate) fn parse_import(&mut self) -> (r: Result<ImportDecl, ParseError>)
        requires
            old(self).wf(),
        ensures
            final(self).keeps(*old(self)),
            r matches Err(e) ==> parser_error(e.kind),
            r is Ok ==> old(self).pos < final(self).pos,
    {
        let start = self.expect(&TokenKind::Import, "`import`")?.span;
        let qualified = if matches!(self.peek_kind(), TokenKind::Qualified) {
            self.bump();
            true
        } else {
            false
        };
        let name = self.parse_mod_name()?;
        let mut alias: Option<ModName> = None;
        let mut items = ImportItems::All;
        if matches!(self.peek_kind(), TokenKind::As) {
            self.bump();
            alias = Some(self.parse_mod_name()?);
        }
        if matches!(self.peek_kind(), TokenKind::LParen) {
            let list = self.parse_import_item_list()?;
            items = ImportItems::Only(list);
        } else if matches!(self.peek_kind(), TokenKind::Hiding) {
            self.bump();
            let list = self.parse_import_item_list()?;
            items = ImportItems::Hiding(list);
        }
        let end = self.peek().span;
        Ok(ImportDecl { name, qualified, alias, items, span: start.merge(end) })
    }

    /// `( item, ... )` or `()`.
    pub(crate) fn parse_import_item_list(&mut self) -> (r: Result<Vec<ImportItem>, ParseError>)
        requires
            old(self).wf(),
        ensures
            final(self).keeps(*old(self)),
            r matches Err(e) ==> parser_error(e.kind),
            r is Ok ==> old(self).pos < final(self).pos,
    {
        self.expect(&TokenKind::LParen, "`(`")?;
        let mut items: Vec<ImportItem> = Vec::new();
        if matches!(self.peek_kind(), TokenKind::RParen) {
            self.bump();
            return Ok(items);
        }
        loop
            invariant
                self.keeps(*old(self)),
                old(self).pos < self.pos,
            decreases self.remaining(),
        {
            let it = self.parse_import_item()?;
            items.push(it);
            if matches!(self.peek_kind(), TokenKind::Comma) {
                self.bump();
                continue ;
            }
            break ;
        }
        self.expect(&TokenKind::RParen, "`)`")?;
        Ok(items)
    }

    /// One entry of an import list.
    pub(crate) fn parse_import_item(&mut self) -> (r: Result<ImportItem, ParseError>)
        requires
            old(self).wf(),
        ensures
            final(self).keeps(*old(self)),
            r matches Err(e) ==> parser_error(e.kind),
            r is Ok ==> old(self).pos < final(self).pos,
    {
        let tok = self.peek().clone();
        match tok.kind {
            TokenKind::LowerIdent(n) => {
                self.bump();
                Ok(ImportItem::Value { name: n, operator: false, span: tok.span })
            },
            TokenKind::LParen => {
                let start = self.bump().span;
                let op = self.expect_operator_symbol()?;
                let end = self.expect(&TokenKind::RParen, "`)`")?.span;
                Ok(ImportItem::Value { name: op, operator: true, span: start.merge(end) })
            },
            TokenKind::UpperIdent(n) => {
                self.bump();
                match self.parse_type_item_tail()? {
                    None => Ok(ImportItem::Type { name: n, span: tok.span }),
                    Some(None) => Ok(ImportItem::TypeAll { name: n, span: tok.span }),
                    Some(Some(ctors)) => Ok(ImportItem::TypeWith { name: n, ctors, span: tok.span }),
                }
            },
            TokenKind::Class => {
                self.bump();
                let (n, n_span) = self.expect_upper_ident()?;
                if matches!(self.peek_kind(), TokenKind::LParen) {
                    self.bump();
                    self.expect(&TokenKind::DotDot, "`..`")?;
                    self.expect(&TokenKind::RParen, "`)`")?;
                    Ok(ImportItem::ClassAll { name: n, span: tok.span.merge(n_span) })
                } else {
                    Ok(ImportItem::Class { name: n, span: tok.span.merge(n_span) })
                }
            },
            other => Err(
                ParseError::new(
                    ParseErrorKind::Expected { expected: "import item", found: other },
                    tok.span,
                ),
            ),
        }
    }

    /// A top-level declaration, chosen by its first token.
    pub(crate) fn parse_decl(&mut self) -> (r: Result<Decl, ParseError>)
        requires
            old(self).wf(),
        ensures
            final(self).keeps(*old(self)),
            r matches Err(e) ==> parser_error(e.kind),
            r is Ok ==> old(self).pos < final(self).pos,
            r matches Ok(d) ==> (d is Data <==> old(self).cur().kind is Data),
            r matches Ok(d) ==> (d is TypeAlias <==> old(self).cur().kind is Type),
            r matches Ok(d) ==> (d is Class <==> old(self).cur().kind is Class),
            r matches Ok(d) ==> (d is Instance <==> old(self).cur().kind is Instance),
    {
        match self.peek_kind() {
            TokenKind::Data => self.parse_data_decl(),
            TokenKind::Type => self.parse_type_alias_decl(),
            TokenKind::Class => self.parse_class_decl(),
            TokenKind::Instance => self.parse_instance_decl(),
            _ => self.parse_value_or_signature_decl(),
        }
    }

    /// `name : scheme`, `name pat... = expr` or `name p... := "ruby"`,
    /// with `(op)` in place of `name` allowed.
    pub(crate) fn parse_value_or_signature_decl(&mut self) -> (r: Result<Decl, ParseError>)
        requires
            old(self).wf(),
        ensures
            final(self).keeps(*old(self)),
            r matches Err(e) ==> parser_error(e.kind),
            r is Ok ==> old(self).pos < final(self).pos,
            r matches Ok(d) ==> d is Signature || d is Value || d is RubyEmbed,
    {
        let start_tok = self.peek().clone();
        let (name, operator, name_span) = match start_tok.kind {
            TokenKind::LowerIdent(n) => {
                self.bump();
                (n, false, start_tok.span)
            },
            TokenKind::LParen => {
                let start = self.bump().span;
                let op = self.expect_operator_symbol()?;
                let end = self.expect(&TokenKind::RParen, "`)`")?.span;
                (op, true, start.merge(end))
            },
            other => {
                return Err(
                    ParseError::new(
                        ParseErrorKind::Expected { expected: "declaration", found: other },
                        start_tok.span,
                    ),
                );
            },
        };
        if matches!(self.peek_kind(), TokenKind::Colon) {
            self.bump();
            let scheme = self.parse_scheme()?;
            let span = name_span.merge(scheme.span);
            return Ok(Decl::Signature { name, operator, scheme, span });
        }
        let mut params: Vec<Pattern> = Vec::new();
        while !self.at_clause_body_start()
            invariant
                self.keeps(*old(self)),
                old(self).pos < self.pos,
            decreases self.remaining(),
        {
            let p = self.parse_apat()?;
            params.push(p);
        }
        if matches!(self.peek_kind(), TokenKind::Equals) {
            self.bump();
            let body = self.parse_expr()?;
            let span = name_span.merge(body.span());
            Ok(Decl::Value(ValueClause { name, operator, params, body, span }))
        } else if self.at_ruby_embed() {
            self.bump();
            let (source, src_span) = self.parse_ruby_string_literal()?;
            let mut simple_params: Vec<Param> = Vec::new();
            let mut i: usize = 0;
            while i < params.len()
                invariant
                    self.keeps(*old(self)),
                    old(self).pos < self.pos,
                    i <= params@.len(),
                decreases params@.len() - i,
            {
                if let Pattern::Var { name: pn, span: ps } = &params[i] {
                    simple_params.push(Param { name: pn.clone(), span: *ps });
                } else {
                    return Err(
                        ParseError::new(
                            ParseErrorKind::UnsupportedFeature(
                                "Ruby embedding `:=` requires plain identifier parameters",
                            ),
                            params[i].span(),
                        ),
                    );
                }
                i = i + 1;
            }
            Ok(
                Decl::RubyEmbed(
                    RubyEmbedDecl {
                        name,
                        params: simple_params,
                        source,
                        span: name_span.merge(src_span),
                    },
                ),
            )
        } else {
            let tok = self.peek().clone();
            Err(
                ParseError::new(
                    ParseErrorKind::Expected { expected: "`=` or `:=`", found: tok.kind },
                    tok.span,
                ),
            )
        }
    }

    /// Whether the parameters of a clause end here.
    pub(crate) fn at_clause_body_start(&self) -> (r: bool)
        requires
            self.wf(),
        ensures
            r == clause_body_start(self.cur().kind),
    {
        matches!(
            self.peek_kind(),
            TokenKind::Equals | TokenKind::Semicolon | TokenKind::RBrace | TokenKind::Eof
        ) || self.at_ruby_embed()
    }

    /// Whether the current token is the `:=` of a Ruby embedding.
    pub(crate) fn at_ruby_embed(&self) -> (r: bool)
        requires
            self.wf(),
        ensures
            r == ruby_embed_op(self.cur().kind),
    {
        match self.peek_kind() {
            TokenKind::Op(s) => text_is(s, ":="),
            _ => false,
        }
    }

    /// The string literal holding a Ruby snippet.
    pub(crate) fn parse_ruby_string_literal(&mut self) -> (r: Result<(String, Span), ParseError>)
        requires
            old(self).wf(),
        ensures
            final(self).keeps(*old(self)),
            r matches Err(e) ==> parser_error(e.kind),
            r matches Ok(p) ==> old(self).cur().kind == TokenKind::Str(p.0) && p.1 == old(
                self,
            ).cur().span && final(self).pos == old(self).pos + 1,
            r is Err ==> !(old(self).cur().kind is Str),
    {
        let tok = self.peek().clone();
        match tok.kind {
            TokenKind::Str(s) => {
                self.bump();
                Ok((s, tok.span))
            },
            other => Err(
                ParseError::new(
                    ParseErrorKind::Expected { expected: "Ruby source string literal", found: other },
                    tok.span,
                ),
            ),
        }
    }

    /// `data T a... = C τ... | ...` with at least one constructor.
    pub(crate) fn parse_data_decl(&mut self) -> (r: Result<Decl, ParseError>)
        requires
            old(self).wf(),
        ensures
            final(self).keeps(*old(self)),
            r matches Err(e) ==> parser_error(e.kind),
            r is Ok ==> old(self).pos < final(self).pos,
            r matches Ok(d) ==> d matches Decl::Data(dd) && dd.ctors@.len() >= 1,
            r is Ok ==> old(self).cur().kind is Data,
    {
        let start = self.expect(&TokenKind::Data, "`data`")?.span;
        let (name, _) = self.expect_upper_ident()?;
        let type_params = self.parse_type_params();
        self.expect(&TokenKind::Equals, "`=`")?;
        let mut ctors: Vec<DataCtor> = Vec::new();
        let c = self.parse_data_ctor()?;
        ctors.push(c);
        while matches!(self.peek_kind(), TokenKind::Bar)
            invariant
                self.keeps(*old(self)),
                old(self).pos < self.pos,
                ctors@.len() >= 1,
            decreases self.remaining(),
        {
            self.bump();
            let c = self.parse_data_ctor()?;
            ctors.push(c);
        }
        let n = ctors.len();
        let end = ctors[n - 1].span;
        Ok(Decl::Data(DataDecl { name, type_params, ctors, span: start.merge(end) }))
    }

    /// Lower-case identifiers naming type parameters.
    fn parse_type_params(&mut self) -> (r: Vec<String>)
        requires
            old(self).wf(),
        ensures
            final(self).keeps(*old(self)),
            final(self).pos == old(self).pos + r@.len(),
            forall|k: int|
                0 <= k < r@.len() ==> (#[trigger] final(self).tokens@[old(self).pos + k]).kind
                    == TokenKind::LowerIdent(r@[k]),
            !(final(self).cur().kind is LowerIdent),
    {
        let mut type_params: Vec<String> = Vec::new();
        loop
            invariant
                self.keeps(*old(self)),
                self.pos == old(self).pos + type_params@.len(),
                forall|k: int|
                    0 <= k < type_params@.len() ==> (#[trigger] self.tokens@[old(self).pos + k]).kind
                        == TokenKind::LowerIdent(type_params@[k]),
            ensures
                self.keeps(*old(self)),
                self.pos == old(self).pos + type_params@.len(),
                forall|k: int|
                    0 <= k < type_params@.len() ==> (#[trigger] self.tokens@[old(self).pos + k]).kind
                        == TokenKind::LowerIdent(type_params@[k]),
                !(self.cur().kind is LowerIdent),
            decreases self.remaining(),
        {
            match self.peek_kind() {
                TokenKind::LowerIdent(tv) => {
                    let tv = tv.clone();
                    self.bump();
                    type_params.push(tv);
                },
                _ => break ,
            }
        }
        type_params
    }

    /// One constructor of a data declaration: a name and atomic types.
    pub(crate) fn parse_data_ctor(&mut self) -> (r: Result<DataCtor, ParseError>)
        requires
            old(self).wf(),
        ensures
            final(self).keeps(*old(self)),
            r matches Err(e) ==> parser_error(e.kind),
            r is Ok ==> old(self).pos < final(self).pos,
    {
        let (name, name_span) = self.expect_upper_ident()?;
        let mut args: Vec<Type> = Vec::new();
        while self.at_atype_start()
            invariant
                self.keeps(*old(self)),
                old(self).pos < self.pos,
            decreases self.remaining(),
        {
            let a = self.parse_atype()?;
            args.push(a);
        }
        let n = args.len();
        let end = if n > 0 {
            args[n - 1].span()
        } else {
            name_span
        };
        Ok(DataCtor { name, args, span: name_span.merge(end) })
    }

    /// `type T a... = τ`.
    pub(crate) fn parse_type_alias_decl(&mut self) -> (r: Result<Decl, ParseError>)
        requires
            old(self).wf(),
        ensures
            final(self).keeps(*old(self)),
            r matches Err(e) ==> parser_error(e.kind),
            r is Ok ==> old(self).pos < final(self).pos,
            r matches Ok(d) ==> d is TypeAlias,
            r is Ok ==> old(self).cur().kind is Type,
    {
        let start = self.expect(&TokenKind::Type, "`type`")?.span;
        let (name, _) = self.expect_upper_ident()?;
        let type_params = self.parse_type_params();
        self.expect(&TokenKind::Equals, "`=`")?;
        let body = self.parse_type()?;
        let span = start.merge(body.span());
        Ok(Decl::TypeAlias(TypeAlias { name, type_params, body, span }))
    }

    /// `class Ctx => C a where { items }`.
    pub(crate) fn parse_class_decl(&mut self) -> (r: Result<Decl, ParseError>)
        requires
            old(self).wf(),
        ensures
            final(self).keeps(*old(self)),
            r matches Err(e) ==> parser_error(e.kind),
            r is Ok ==> old(self).pos < final(self).pos,
            r matches Ok(d) ==> d is Class,
            r is Ok ==> old(self).cur().kind is Class,
    {
        let start = self.expect(&TokenKind::Class, "`class`")?.span;
        let context = self.parse_optional_context()?;
        let (name, _) = self.expect_upper_ident()?;
        let (type_var, _) = self.expect_lower_ident()?;
        self.expect(&TokenKind::Where, "`where`")?;
        self.expect(&TokenKind::LBrace, "`{`")?;
        let mut items: Vec<ClassItem> = Vec::new();
        while !matches!(self.peek_kind(), TokenKind::RBrace | TokenKind::Eof)
            invariant
                self.keeps(*old(self)),
                old(self).pos < self.pos,
            decreases self.remaining(),
        {
            let ghost p0 = self.pos;
            while matches!(self.peek_kind(), TokenKind::Semicolon)
                invariant
                    self.keeps(*old(self)),
                    old(self).pos < self.pos,
                    p0 <= self.pos,
                decreases self.remaining(),
            {
                self.bump();
            }
            if matches!(self.peek_kind(), TokenKind::RBrace | TokenKind::Eof) {
                break ;
            }
            let it = self.parse_class_item()?;
            items.push(it);
            if matches!(self.peek_kind(), TokenKind::Semicolon) {
                self.bump();
            }
        }
        let end = self.peek().span;
        self.expect(&TokenKind::RBrace, "`}`")?;
        Ok(Decl::Class(ClassDecl { context, name, type_var, items, span: start.merge(end) }))
    }

    /// A method signature `m : scheme` / `(op) : scheme`, or a default
    /// method clause.
    pub(crate) fn parse_class_item(&mut self) -> (r: Result<ClassItem, ParseError>)
        requires
            old(self).wf(),
        ensures
            final(self).keeps(*old(self)),
            r matches Err(e) ==> parser_error(e.kind),
            r is Ok ==> old(self).pos < final(self).pos,
    {
        let lookahead_sig = match self.peek_kind() {
            TokenKind::LowerIdent(_) => matches!(self.peek_at(1), TokenKind::Colon),
            TokenKind::LParen => op_token_symbol(self.peek_at(1)).is_some() && matches!(
                self.peek_at(2),
                TokenKind::RParen
            ) && matches!(self.peek_at(3), TokenKind::Colon),
            _ => false,
        };
        if lookahead_sig {
            let start_tok = self.peek().clone();
            let (name, operator, name_span) = match start_tok.kind {
                TokenKind::LowerIdent(n) => {
                    self.bump();
                    (n, false, start_tok.span)
                },
                _ => {
                    let start = self.bump().span;
                    let op = self.expect_operator_symbol()?;
                    let end = self.expect(&TokenKind::RParen, "`)`")?.span;
                    (op, true, start.merge(end))
                },
            };
            self.expect(&TokenKind::Colon, "`:`")?;
            let scheme = self.parse_scheme()?;
            let span = name_span.merge(scheme.span);
            Ok(ClassItem::Signature { name, operator, scheme, span })
        } else {
            let clause = self.parse_clause()?;
            Ok(ClassItem::Default(clause))
        }
    }

    /// `instance Ctx => C τ where { clauses }`.
    pub(crate) fn parse_instance_decl(&mut self) -> (r: Result<Decl, ParseError>)
        requires
            old(self).wf(),
        ensures
            final(self).keeps(*old(self)),
            r matches Err(e) ==> parser_error(e.kind),
            r is Ok ==> old(self).pos < final(self).pos,
            r matches Ok(d) ==> d is Instance,
            r is Ok ==> old(self).cur().kind is Instance,
    {
        let start = self.expect(&TokenKind::Instance, "`instance`")?.span;
        let context = self.parse_optional_context()?;
        let (name, _) = self.expect_upper_ident()?;
        let head = self.parse_atype()?;
        self.expect(&TokenKind::Where, "`where`")?;
        self.expect(&TokenKind::LBrace, "`{`")?;
        let mut items: Vec<ValueClause> = Vec::new();
        while !matches!(self.peek_kind(), TokenKind::RBrace | TokenKind::Eof)
            invariant
                self.keeps(*old(self)),
                old(self).pos < self.pos,
            decreases self.remaining(),
        {
            let ghost p0 = self.pos;
            while matches!(self.peek_kind(), TokenKind::Semicolon)
                invariant
                    self.keeps(*old(self)),
                    old(self).pos < self.pos,
                    p0 <= self.pos,
                decreases self.remaining(),
            {
                self.bump();
            }
            if matches!(self.peek_kind(), TokenKind::RBrace | TokenKind::Eof) {
                break ;
            }
            let c = self.parse_clause()?;
            items.push(c);
            if matches!(self.peek_kind(), TokenKind::Semicolon) {
                self.bump();
            }
        }
        let end = self.peek().span;
        self.expect(&TokenKind::RBrace, "`}`")?;
        Ok(Decl::Instance(InstanceDecl { context, name, head, items, span: start.merge(end) }))
    }

    /// A class or instance clause: `(op) p... = e`, infix `p op p = e`,
    /// or `name p... = e`.
    pub(crate) fn parse_clause(&mut self) -> (r: Result<ValueClause, ParseError>)
        requires
            old(self).wf(),
        ensures
            final(self).keeps(*old(self)),
            r matches Err(e) ==> parser_error(e.kind),
            r is Ok ==> old(self).pos < final(self).pos,
    {
        let first_span = self.peek().span;
        let snapshot = self.pos;
        if matches!(self.peek_kind(), TokenKind::LParen) && op_token_symbol(self.peek_at(1)).is_some()
            && matches!(self.peek_at(2), TokenKind::RParen) {
            let start = self.bump().span;
            let op = self.expect_operator_symbol()?;
            self.expect(&TokenKind::RParen, "`)`")?;
            let mut params: Vec<Pattern> = Vec::new();
            while !self.at_clause_body_start()
                invariant
                    self.keeps(*old(self)),
                    old(self).pos < self.pos,
                decreases self.remaining(),
            {
                let p = self.parse_apat()?;
                params.push(p);
            }
            self.expect(&TokenKind::Equals, "`=`")?;
            let body = self.parse_expr()?;
            let span = start.merge(body.span());
            return Ok(ValueClause { name: op, operator: true, params, body, span });
        }
        let first = self.parse_apat()?;
        if op_token_symbol(self.peek_kind()).is_some() && self.is_valid_infix_method(
            self.peek_kind(),
        ) {
            let op = self.expect_operator_symbol()?;
            let second = self.parse_apat()?;
            self.expect(&TokenKind::Equals, "`=`")?;
            let body = self.parse_expr()?;
            let span = first_span.merge(body.span());
            let mut params: Vec<Pattern> = Vec::new();
            params.push(first);
            params.push(second);
            return Ok(ValueClause { name: op, operator: true, params, body, span });
        }
        let (name, name_span) = match first {
            Pattern::Var { name, span } => (name, span),
            _ => {
                self.pos = snapshot;
                let tok = self.peek().clone();
                return Err(
                    ParseError::new(
                        ParseErrorKind::Expected { expected: "clause name", found: tok.kind },
                        tok.span,
                    ),
                );
            },
        };
        let mut params: Vec<Pattern> = Vec::new();
        while !self.at_clause_body_start()
            invariant
                self.keeps(*old(self)),
                old(self).pos < self.pos,
            decreases self.remaining(),
        {
            let p = self.parse_apat()?;
            params.push(p);
        }
        self.expect(&TokenKind::Equals, "`=`")?;
        let body = self.parse_expr()?;
        let span = name_span.merge(body.span());
        Ok(ValueClause { name, operator: false, params, body, span })
    }

    /// Operator tokens that may head an infix clause; `=` may not.
    pub(crate) fn is_valid_infix_method(&self, kind: &TokenKind) -> (r: bool)
        ensures
            r == infix_method_op(*kind),
    {
        matches!(
            kind,
            TokenKind::Plus | TokenKind::Minus | TokenKind::Star | TokenKind::Slash
                | TokenKind::Percent | TokenKind::EqEq | TokenKind::SlashEq | TokenKind::Lt
                | TokenKind::LtEq | TokenKind::Gt | TokenKind::GtEq | TokenKind::AndAnd
                | TokenKind::OrOr | TokenKind::PlusPlus | TokenKind::DoubleColon | TokenKind::Op(_)
        )
    }
}

} // verus!
