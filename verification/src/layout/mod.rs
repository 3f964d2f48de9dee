//! Layout resolution: the off-side rule.
//!
//! Consumes the lexer's `Newline` / `Indent` markers and rewrites the
//! token stream so that blocks written with indentation are delimited
//! by virtual `{`, `;`, `}` tokens: empty-span `LBrace` / `Semicolon` /
//! `RBrace` anchored at the nearest real token. Explicit-brace blocks
//! and layout blocks then look the same to the parser.
use vstd::prelude::*;
use vstd::string::StringSliceAdditionalSpecFns;

pub mod error;

pub use error::{LayoutError, LayoutErrorKind};

use crate::lexer::spec::{code_points, line_begin};
use crate::lexer::{Span, Token, TokenKind};

verus! {

/// A layout marker from the lexer: `Newline` or `Indent`.
pub open spec fn is_marker(t: Token) -> bool {
    t.kind is Newline || t.kind is Indent
}

/// A virtual block token: an empty-span `{`, `;` or `}`.
pub open spec fn is_virtual(t: Token) -> bool {
    (t.kind is LBrace || t.kind is RBrace || t.kind is Semicolon) && t.span.start == t.span.end
}

/// The tokens of `s` that are neither layout markers nor virtual block
/// tokens, in order.
pub open spec fn visible(s: Seq<Token>) -> Seq<Token>
    decreases s.len(),
{
    if s.len() == 0 {
        Seq::empty()
    } else if is_marker(s.last()) || is_virtual(s.last()) {
        visible(s.drop_last())
    } else {
        visible(s.drop_last()).push(s.last())
    }
}

/// `k` is the position of the first `Eof` in `s`.
pub open spec fn first_eof(s: Seq<Token>, k: int) -> bool {
    0 <= k < s.len() && s[k].kind is Eof && forall|i: int| 0 <= i < k ==> !(#[trigger] s[i].kind is Eof)
}

/// `b` is `a` followed by virtual block tokens only.
pub open spec fn grows_by_virtuals(a: Seq<Token>, b: Seq<Token>) -> bool {
    &&& a.len() <= b.len()
    &&& forall|i: int| 0 <= i < a.len() ==> b[i] == a[i]
    &&& forall|i: int| a.len() <= i < b.len() ==> is_virtual(#[trigger] b[i])
}

/// What a successful layout pass gives for `input`: the first `Eof` of
/// the input closes the output; the output holds no layout markers and
/// opens with a virtual `{`; and taking the virtual tokens out of the
/// output leaves the input's real tokens up to that `Eof`, in order.
pub open spec fn layout_result(input: Seq<Token>, out: Seq<Token>) -> bool {
    exists|k: int|
        #![trigger first_eof(input, k)]
        {
            &&& first_eof(input, k)
            &&& visible(out) == visible(input.take(k + 1))
            &&& out.len() >= 2
            &&& out.last() == input[k]
            &&& out[0].kind is LBrace && out[0].span == Span { start: 0, end: 0 }
            &&& forall|i: int| 0 <= i < out.len() ==> !is_marker(#[trigger] out[i])
        }
}

/// Run the layout pass over a full token stream (from the lexer,
/// including its final `Eof`) without the source text.
pub fn resolve(tokens: Vec<Token>) -> (r: Result<Vec<Token>, LayoutError>)
    ensures
        r matches Ok(out) ==> layout_result(tokens@, out@),
        r matches Err(e) ==> (e.kind is MissingEof <==> forall|i: int|
            0 <= i < tokens@.len() ==> !(#[trigger] tokens@[i].kind is Eof)),
        (forall|i: int| 0 <= i < tokens@.len() ==> !(#[trigger] tokens@[i].kind is Eof))
            ==> r is Err,
        brace_free_to_eof(tokens@) ==> r is Ok,
        r matches Err(e) ==> (e.kind is MissingEof || e.kind is UnclosedExplicitBlock),
{
    resolve_with_source(tokens, "")
}

/// Same as `resolve`, with the source text, so that a block opened on
/// the same line as its keyword gets the code-point column of its first
/// token as reference column.
pub fn resolve_with_source(tokens: Vec<Token>, source: &str) -> (r: Result<Vec<Token>, LayoutError>)
    ensures
        r matches Ok(out) ==> layout_result(tokens@, out@),
        r matches Err(e) ==> (e.kind is MissingEof <==> forall|i: int|
            0 <= i < tokens@.len() ==> !(#[trigger] tokens@[i].kind is Eof)),
        (forall|i: int| 0 <= i < tokens@.len() ==> !(#[trigger] tokens@[i].kind is Eof))
            ==> r is Err,
        brace_free_to_eof(tokens@) ==> r is Ok,
        r matches Err(e) ==> (e.kind is MissingEof || e.kind is UnclosedExplicitBlock),
{
    let ghost input = tokens@;
    let mut lay = Layout::new(tokens, source.as_bytes());
    let r = lay.run();
    proof {
        if r is Ok {
            let k = lay.pos - 1;
            assert(first_eof(input, k));
        }
    }
    r
}

/// One entry on the layout context stack.
#[derive(Debug, Clone, Copy, PartialEq, Eq)]
enum Context {
    /// `{` was written explicitly; layout is inert inside.
    Explicit,
    /// An implicit block with its reference column and opener; `fresh`
    /// until the block's first statement has been seen.
    Implicit { col: usize, opener: Opener, fresh: bool },
}

/// Which keyword opened an implicit block.
#[derive(Debug, Clone, Copy, PartialEq, Eq)]
enum Opener {
    Where,
    Let,
    Of,
    Do,
    /// The block around the whole file, at column 0.
    TopLevel,
}

struct Layout<'s> {
    input: Vec<Token>,
    pos: usize,
    out: Vec<Token>,
    stack: Vec<Context>,
    source: &'s [u8],
    pending_indent: Option<usize>,
    pending_open: Option<Opener>,
}

/// A virtual token: the given kind with an empty span at `anchor`.
fn virtual_tok(kind: TokenKind, anchor: usize) -> (r: Token)
    ensures
        r.kind == kind,
        r.span.start == anchor,
        r.span.end == anchor,
{
    Token::new(kind, Span::empty(anchor))
}

/// A virtual token of `kind` with an empty span at `anchor`.
spec fn vtok(kind: TokenKind, anchor: usize) -> Token {
    Token { kind, span: Span { start: anchor, end: anchor } }
}

/// The stack and output after a line-start token at column `col`: each
/// implicit block whose column lies right of `col` is closed with a
/// virtual `}`; then, at a block whose column is `col`, a first
/// statement marks the block as begun and any later one is separated by
/// a virtual `;`.
spec fn line_start(stack: Seq<Context>, out: Seq<Token>, col: usize, anchor: usize) -> (Seq<Context>, Seq<Token>)
    decreases stack.len(),
{
    if stack.len() > 0 {
        match stack.last() {
            Context::Implicit { col: rc, opener, fresh } => if col < rc {
                line_start(stack.drop_last(), out.push(vtok(TokenKind::RBrace, anchor)), col, anchor)
            } else if col == rc {
                if fresh {
                    (stack.update(stack.len() - 1, Context::Implicit { col: rc, opener, fresh: false }), out)
                } else {
                    (stack, out.push(vtok(TokenKind::Semicolon, anchor)))
                }
            } else {
                (stack, out)
            },
            _ => (stack, out),
        }
    } else {
        (stack, out)
    }
}

/// Every open block is an implicit one: no explicit `{` is open.
spec fn all_implicit(stack: Seq<Context>) -> bool {
    forall|i: int| 0 <= i < stack.len() ==> #[trigger] stack[i] is Implicit
}

/// A token stream whose first `Eof` is preceded by no `{`.
pub open spec fn brace_free_to_eof(s: Seq<Token>) -> bool {
    exists|k: int| #[trigger] first_eof(s, k) && forall|i: int| 0 <= i < k ==> !(#[trigger] s[i].kind is LBrace)
}

/// Closing and separating at a line start opens no explicit block.
proof fn lemma_line_start_implicit(stack: Seq<Context>, out: Seq<Token>, col: usize, anchor: usize)
    requires
        all_implicit(stack),
    ensures
        all_implicit(line_start(stack, out, col, anchor).0),
    decreases stack.len(),
{
    if stack.len() > 0 {
        match stack.last() {
            Context::Implicit { col: rc, opener, fresh } => {
                if col < rc {
                    lemma_line_start_implicit(stack.drop_last(), out.push(vtok(TokenKind::RBrace, anchor)), col, anchor);
                }
            },
            _ => {},
        }
    }
}

/// Appending a virtual token keeps `b` a virtual extension of `a`.
proof fn lemma_grow(a: Seq<Token>, b: Seq<Token>, t: Token)
    requires
        grows_by_virtuals(a, b),
        is_virtual(t),
    ensures
        grows_by_virtuals(a, b.push(t)),
{
    assert forall|i: int| a.len() <= i < b.push(t).len() implies is_virtual(#[trigger] b.push(t)[i]) by {
        if i < b.len() {
            assert(b.push(t)[i] == b[i]);
        }
    }
}

/// A virtual extension shows the same visible tokens.
proof fn lemma_grow_visible(a: Seq<Token>, b: Seq<Token>)
    requires
        grows_by_virtuals(a, b),
    ensures
        visible(b) == visible(a),
    decreases b.len(),
{
    if b.len() > a.len() {
        let c = b.drop_last();
        assert(grows_by_virtuals(a, c)) by {
            assert forall|i: int| a.len() <= i < c.len() implies is_virtual(#[trigger] c[i]) by {
                assert(c[i] == b[i]);
            }
        }
        lemma_grow_visible(a, c);
        assert(is_virtual(b[b.len() - 1]));
    } else {
        assert(b =~= a);
    }
}

/// Every virtual extension of `a` extends a sequence free of markers to
/// one free of markers.
proof fn lemma_grow_no_marker(a: Seq<Token>, b: Seq<Token>)
    requires
        grows_by_virtuals(a, b),
        forall|i: int| 0 <= i < a.len() ==> !is_marker(#[trigger] a[i]),
    ensures
        forall|i: int| 0 <= i < b.len() ==> !is_marker(#[trigger] b[i]),
{
    assert forall|i: int| 0 <= i < b.len() implies !is_marker(#[trigger] b[i]) by {
        if i < a.len() {
            assert(b[i] == a[i]);
        } else {
            assert(is_virtual(b[i]));
        }
    }
}

impl<'s> Layout<'s> {
    fn new(input: Vec<Token>, source: &'s [u8]) -> (r: Self)
        ensures
            r.input@ == input@,
            r.pos == 0,
            r.out@.len() == 0,
            r.source@ == source@,
            all_implicit(r.stack@),
    {
        let mut stack: Vec<Context> = Vec::new();
        stack.push(Context::Implicit { col: 0, opener: Opener::TopLevel, fresh: true });
        Layout {
            input,
            pos: 0,
            out: Vec::new(),
            stack,
            source,
            pending_indent: None,
            pending_open: None,
        }
    }

    /// Code-point column of byte offset `at` in the source (counted from
    /// the last `\n`), or `None` when no source was supplied.
    fn column_of(&self, at: usize) -> (r: Option<usize>)
        ensures
            self.source@.len() == 0 ==> r is None,
            self.source@.len() > 0 ==> r == Some(
                code_points(
                    self.source@.subrange(
                        line_begin(
                            self.source@,
                            if at <= self.source@.len() {
                                at as int
                            } else {
                                self.source@.len() as int
                            },
                        ),
                        if at <= self.source@.len() {
                            at as int
                        } else {
                            self.source@.len() as int
                        },
                    ),
                ) as usize,
            ),
    {
        if self.source.len() == 0 {
            return None;
        }
        let end = if at <= self.source.len() {
            at
        } else {
            self.source.len()
        };
        let mut ls = end;
        while ls > 0 && self.source[ls - 1] != 10
            invariant
                ls <= end <= self.source@.len(),
                line_begin(self.source@, ls as int) == line_begin(self.source@, end as int),
            decreases ls,
        {
            ls = ls - 1;
        }
        let mut count: usize = 0;
        let mut i = ls;
        while i < end
            invariant
                ls <= i <= end <= self.source@.len(),
                count == code_points(self.source@.subrange(ls as int, i as int)),
                count <= i - ls,
            decreases end - i,
        {
            let b = self.source[i];
            assert(self.source@.subrange(ls as int, i + 1).drop_last() =~= self.source@.subrange(
                ls as int,
                i as int,
            ));
            if !(0x80 <= b && b <= 0xbf) {
                count = count + 1;
            }
            i = i + 1;
        }
        Some(count)
    }
}


impl<'s> Layout<'s> {
    /// The stack-top context, if any.
    fn top(&self) -> (r: Option<Context>)
        ensures
            self.stack@.len() == 0 ==> r is None,
            self.stack@.len() > 0 ==> r == Some(self.stack@.last()),
    {
        let n = self.stack.len();
        if n == 0 {
            None
        } else {
            Some(self.stack[n - 1])
        }
    }

    /// Mark the innermost context as having seen its first statement.
    fn mark_top_not_fresh(&mut self)
        ensures
            final(self).out@ == old(self).out@,
            final(self).input@ == old(self).input@,
            final(self).pos == old(self).pos,
            final(self).stack@.len() == old(self).stack@.len(),
            final(self).source@ == old(self).source@,
            final(self).pending_open == old(self).pending_open,
            final(self).stack@ == match old(self).stack@.last() {
                Context::Implicit { col, opener, .. } => if old(self).stack@.len() > 0 {
                    old(self).stack@.update(
                        old(self).stack@.len() - 1,
                        Context::Implicit { col, opener, fresh: false },
                    )
                } else {
                    old(self).stack@
                },
                _ => old(self).stack@,
            },
    {
        let n = self.stack.len();
        if n > 0 {
            if let Context::Implicit { col, opener, .. } = self.stack[n - 1] {
                self.stack.set(n - 1, Context::Implicit { col, opener, fresh: false });
            }
        }
    }

    fn run(&mut self) -> (r: Result<Vec<Token>, LayoutError>)
        requires
            old(self).pos == 0,
            old(self).out@.len() == 0,
            all_implicit(old(self).stack@),
        ensures
            brace_free_to_eof(old(self).input@) ==> r is Ok,
            r matches Err(e) ==> (e.kind is MissingEof || e.kind is UnclosedExplicitBlock),
            final(self).input@ == old(self).input@,
            r matches Ok(out) ==> {
                &&& first_eof(old(self).input@, final(self).pos - 1)
                &&& visible(out@) == visible(old(self).input@.take(final(self).pos as int))
                &&& out@.len() >= 2
                &&& out@.last() == old(self).input@[final(self).pos - 1]
                &&& out@[0].kind is LBrace && out@[0].span.start == 0 && out@[0].span.end == 0
                &&& forall|i: int| 0 <= i < out@.len() ==> !is_marker(#[trigger] out@[i])
            },
            r matches Err(e) ==> (e.kind is MissingEof <==> forall|i: int|
                0 <= i < old(self).input@.len() ==> !(#[trigger] old(self).input@[i].kind is Eof)),
            (forall|i: int| 0 <= i < old(self).input@.len() ==> !(#[trigger] old(self).input@[i].kind is Eof))
                ==> r is Err,
    {
        self.out.push(virtual_tok(TokenKind::LBrace, 0));
        proof {
            assert(visible(self.out@) =~= visible(Seq::<Token>::empty())) by {
                assert(self.out@.drop_last() =~= Seq::<Token>::empty());
            }
            assert(self.input@.take(0) =~= Seq::<Token>::empty());
        }
        while self.pos < self.input.len()
            invariant
                self.input@ == old(self).input@,
                self.pos <= self.input@.len(),
                forall|i: int| 0 <= i < self.pos ==> !(#[trigger] self.input@[i].kind is Eof),
                visible(self.out@) == visible(self.input@.take(self.pos as int)),
                self.out@.len() >= 1,
                self.out@[0].kind is LBrace && self.out@[0].span.start == 0 && self.out@[0].span.end == 0,
                forall|i: int| 0 <= i < self.out@.len() ==> !is_marker(#[trigger] self.out@[i]),
                (forall|i: int| 0 <= i < self.pos ==> !(#[trigger] self.input@[i].kind is LBrace)) ==> all_implicit(
                    self.stack@,
                ),
            decreases self.input@.len() - self.pos,
        {
            let tok = self.input[self.pos].clone();
            proof {
                assert(self.input@.take(self.pos + 1).drop_last() =~= self.input@.take(self.pos as int));
                assert(self.input@.take(self.pos + 1).last() == tok);
            }
            match tok.kind {
                TokenKind::Newline => {
                    self.pos = self.pos + 1;
                },
                TokenKind::Indent(col) => {
                    self.pending_indent = Some(col);
                    self.pos = self.pos + 1;
                },
                TokenKind::Eof => {
                    let ghost base = self.out@;
                    let anchor = tok.span.start;
                    if self.pending_open.is_some() {
                        self.pending_open = None;
                        self.out.push(virtual_tok(TokenKind::LBrace, anchor));
                        proof { lemma_grow(base, self.out@.drop_last(), self.out@.last()); }
                        let ghost b1 = self.out@;
                        self.out.push(virtual_tok(TokenKind::RBrace, anchor));
                        proof {
                            assert(self.out@.drop_last() =~= b1);
                        }
                    } else {
                        self.pending_open = None;
                    }
                    proof {
                        assert(grows_by_virtuals(base, self.out@));
                    }
                    loop
                        invariant
                            self.input@ == old(self).input@,
                            self.pos < self.input@.len(),
                            self.input@[self.pos as int] == tok,
                            tok.kind is Eof,
                            forall|i: int| 0 <= i < self.pos ==> !(#[trigger] self.input@[i].kind is Eof),
                            visible(base) == visible(self.input@.take(self.pos as int)),
                            base.len() >= 1,
                            base[0].kind is LBrace && base[0].span.start == 0 && base[0].span.end == 0,
                            forall|i: int| 0 <= i < base.len() ==> !is_marker(#[trigger] base[i]),
                            grows_by_virtuals(base, self.out@),
                            (forall|i: int| 0 <= i < self.pos ==> !(#[trigger] self.input@[i].kind is LBrace))
                                ==> all_implicit(self.stack@),
                        decreases self.stack@.len(),
                    {
                        match self.top() {
                            None => break ,
                            Some(Context::Implicit { .. }) => {
                                let ghost b0 = self.out@;
                                self.out.push(virtual_tok(TokenKind::RBrace, anchor));
                                proof { lemma_grow(base, b0, self.out@.last()); assert(self.out@ == b0.push(self.out@.last())); }
                                self.stack.pop();
                            },
                            Some(Context::Explicit) => {
                                return Err(
                                    LayoutError::new(LayoutErrorKind::UnclosedExplicitBlock, tok.span),
                                );
                            },
                        }
                    }
                    proof {
                        lemma_grow_visible(base, self.out@);
                        lemma_grow_no_marker(base, self.out@);
                        assert(self.out@[0] == base[0]);
                    }
                    let ghost b2 = self.out@;
                    self.out.push(tok);
                    self.pos = self.pos + 1;
                    proof {
                        assert(self.out@.drop_last() =~= b2);
                        assert(forall|i: int| 0 <= i < self.out@.len() - 1 ==> self.out@[i] == b2[i]);
                        assert(visible(self.out@) == visible(b2).push(tok));
                        let tk = self.input@.take(self.pos as int);
                        assert(tk.drop_last() =~= self.input@.take(self.pos - 1));
                        assert(visible(tk) == visible(self.input@.take(self.pos - 1)).push(tok));
                        assert forall|i: int| 0 <= i < self.out@.len() implies !is_marker(#[trigger] self.out@[i]) by {
                            if i < self.out@.len() - 1 { assert(self.out@[i] == b2[i]); }
                        }
                    }
                    let ghost fin = self.out@;
                    let mut result: Vec<Token> = Vec::new();
                    std::mem::swap(&mut result, &mut self.out);
                    assert(result@ == fin);
                    assert(first_eof(old(self).input@, self.pos - 1));
                    assert(visible(result@) == visible(old(self).input@.take(self.pos as int)));
                    assert(result@.len() >= 2);
                    assert(result@.last() == old(self).input@[self.pos - 1]);
                    assert(result@[0].kind is LBrace && result@[0].span.start == 0);
                    return Ok(result);
                },
                _ => {
                    let ghost b0 = self.out@;
                    let ghost t0 = tok;
                    match self.handle_real_token(tok) {
                        Err(e) => return Err(e),
                        Ok(()) => {},
                    }
                    proof {
                        lemma_grow_visible(b0, self.out@.drop_last());
                        lemma_grow_no_marker(b0, self.out@.drop_last());
                        assert(self.out@ =~= self.out@.drop_last().push(t0));
                        assert forall|i: int| 0 <= i < self.out@.len() implies !is_marker(#[trigger] self.out@[i]) by {
                            if i < self.out@.len() - 1 {
                                assert(self.out@[i] == self.out@.drop_last()[i]);
                            }
                        }
                        assert(self.out@[0] == b0[0]);
                    }
                    self.pos = self.pos + 1;
                },
            }
        }
        Err(LayoutError::new(LayoutErrorKind::MissingEof, Span::empty(0)))
    }

    fn handle_real_token(&mut self, tok: Token) -> (r: Result<(), LayoutError>)
        requires
            !is_marker(tok),
            !(tok.kind is Eof),
        ensures
            final(self).input@ == old(self).input@,
            final(self).pos == old(self).pos,
            final(self).source@ == old(self).source@,
            r is Ok,
            final(self).out@.len() >= old(self).out@.len() + 1,
            grows_by_virtuals(old(self).out@, final(self).out@.drop_last()),
            final(self).out@.last() == tok,
            all_implicit(old(self).stack@) && !(tok.kind is LBrace) ==> all_implicit(final(self).stack@),
    {
        let ghost base = self.out@;
        let ghost keep = all_implicit(self.stack@) && !(tok.kind is LBrace);
        let line_start_col = self.pending_indent;
        self.pending_indent = None;
        let anchor = tok.span.start;

        // 1. A pending block opener decides what to do with `tok`.
        if let Some(opener) = self.pending_open {
            self.pending_open = None;
            match tok.kind {
                TokenKind::LBrace => {
                    self.stack.push(Context::Explicit);
                    self.out.push(tok);
                    proof { assert(self.out@.drop_last() =~= base); }
                    return Ok(());
                },
                _ => {
                    self.out.push(virtual_tok(TokenKind::LBrace, anchor));
                    proof { lemma_grow(base, base, self.out@.last()); assert(self.out@ =~= base.push(self.out@.last())); }
                    let col = match line_start_col {
                        Some(c) => c,
                        None => match self.column_of(anchor) {
                            Some(c) => c,
                            None => usize::MAX,
                        },
                    };
                    self.stack.push(Context::Implicit { col, opener, fresh: true });
                    self.mark_top_not_fresh();
                    let ghost b1 = self.out@;
                    self.out.push(tok);
                    proof { assert(self.out@.drop_last() =~= b1); }
                    return Ok(());
                },
            }
        }

        // 2. Indentation-driven close / separator for line-start tokens.
        if let Some(col) = line_start_col {
            let ghost st0 = self.stack@;
            let ghost out0 = self.out@;
            match self.apply_line_start(col, anchor) {
                Err(e) => return Err(e),
                Ok(()) => {},
            }
            proof {
                if keep {
                    lemma_line_start_implicit(st0, out0, col, anchor);
                }
            }
        }
        proof { assert(grows_by_virtuals(base, self.out@)); }

        // 3. `in` closes the innermost `let` block and every block above it.
        if matches!(tok.kind, TokenKind::In) {
            let mut idx = self.stack.len();
            let mut found = false;
            while idx > 0 && !found
                invariant
                    idx <= self.stack@.len(),
                    found ==> 1 <= idx,
                decreases idx + if found { 0int } else { 1int },
            {
                if matches!(self.stack[idx - 1], Context::Implicit { opener: Opener::Let, .. }) {
                    found = true;
                } else {
                    idx = idx - 1;
                }
            }
            if found {
                let target = idx - 1;
                while self.stack.len() > target + 1
                    invariant
                        target < usize::MAX,
                        keep ==> all_implicit(self.stack@),
                        self.input@ == old(self).input@,
                        self.pos == old(self).pos,
                        self.source@ == old(self).source@,
                        grows_by_virtuals(base, self.out@),
                    decreases self.stack@.len(),
                {
                    let ghost b0 = self.out@;
                    self.out.push(virtual_tok(TokenKind::RBrace, anchor));
                    proof { lemma_grow(base, b0, self.out@.last()); assert(self.out@ == b0.push(self.out@.last())); }
                    self.stack.pop();
                }
                let ghost b0 = self.out@;
                self.out.push(virtual_tok(TokenKind::RBrace, anchor));
                proof { lemma_grow(base, b0, self.out@.last()); assert(self.out@ == b0.push(self.out@.last())); }
                self.stack.pop();
            }
            let ghost b1 = self.out@;
            self.out.push(tok);
            proof { assert(self.out@.drop_last() =~= b1); }
            return Ok(());
        }

        // 4. Explicit `{` and `}` that are not block openers.
        if matches!(tok.kind, TokenKind::LBrace) {
            self.stack.push(Context::Explicit);
            let ghost b1 = self.out@;
            self.out.push(tok);
            proof { assert(self.out@.drop_last() =~= b1); }
            return Ok(());
        }
        if matches!(tok.kind, TokenKind::RBrace) {
            loop
                invariant
                    self.input@ == old(self).input@,
                    self.pos == old(self).pos,
                    self.source@ == old(self).source@,
                    grows_by_virtuals(base, self.out@),
                    keep ==> all_implicit(self.stack@),
                decreases self.stack@.len(),
            {
                match self.top() {
                    None => break ,
                    Some(Context::Implicit { .. }) => {
                        let ghost b0 = self.out@;
                        self.out.push(virtual_tok(TokenKind::RBrace, anchor));
                        proof { lemma_grow(base, b0, self.out@.last()); assert(self.out@ == b0.push(self.out@.last())); }
                        self.stack.pop();
                    },
                    Some(Context::Explicit) => {
                        self.stack.pop();
                        break ;
                    },
                }
            }
            let ghost b1 = self.out@;
            self.out.push(tok);
            proof { assert(self.out@.drop_last() =~= b1); }
            return Ok(());
        }

        // 5. Block-opening keywords: the next real token opens the block.
        match tok.kind {
            TokenKind::Where => self.pending_open = Some(Opener::Where),
            TokenKind::Let => self.pending_open = Some(Opener::Let),
            TokenKind::Of => self.pending_open = Some(Opener::Of),
            TokenKind::Do => self.pending_open = Some(Opener::Do),
            _ => {},
        }
        let ghost b1 = self.out@;
        self.out.push(tok);
        proof { assert(self.out@.drop_last() =~= b1); }
        Ok(())
    }

    /// Close or separate implicit blocks before a line-start token at
    /// column `col`.
    fn apply_line_start(&mut self, col: usize, anchor: usize) -> (r: Result<(), LayoutError>)
        ensures
            final(self).input@ == old(self).input@,
            final(self).pos == old(self).pos,
            final(self).source@ == old(self).source@,
            final(self).pending_open == old(self).pending_open,
            r is Ok,
            grows_by_virtuals(old(self).out@, final(self).out@),
            (final(self).stack@, final(self).out@) == line_start(old(self).stack@, old(self).out@, col, anchor),
    {
        let ghost base = self.out@;
        loop
            invariant_except_break
                line_start(old(self).stack@, old(self).out@, col, anchor) == line_start(
                    self.stack@,
                    self.out@,
                    col,
                    anchor,
                ),
            invariant
                self.input@ == old(self).input@,
                self.pos == old(self).pos,
                self.source@ == old(self).source@,
                self.pending_open == old(self).pending_open,
                grows_by_virtuals(base, self.out@),
                base == old(self).out@,
            ensures
                self.input@ == old(self).input@,
                self.pos == old(self).pos,
                self.source@ == old(self).source@,
                self.pending_open == old(self).pending_open,
                grows_by_virtuals(base, self.out@),
                (self.stack@, self.out@) == line_start(old(self).stack@, old(self).out@, col, anchor),
            decreases self.stack@.len(),
        {
            match self.top() {
                Some(Context::Implicit { col: ref_col, fresh, .. }) => {
                    if col < ref_col {
                        let ghost b0 = self.out@;
                        let ghost s0 = self.stack@;
                        self.out.push(virtual_tok(TokenKind::RBrace, anchor));
                        proof { lemma_grow(base, b0, self.out@.last()); assert(self.out@ == b0.push(self.out@.last())); }
                        self.stack.pop();
                        proof {
                            assert(self.out@.last() == vtok(TokenKind::RBrace, anchor));
                            assert(self.stack@ == s0.drop_last());
                        }
                        continue ;
                    }
                    if col == ref_col {
                        if fresh {
                            self.mark_top_not_fresh();
                        } else {
                            let ghost b0 = self.out@;
                            self.out.push(virtual_tok(TokenKind::Semicolon, anchor));
                            proof {
                                lemma_grow(base, b0, self.out@.last());
                                assert(self.out@ == b0.push(self.out@.last()));
                                assert(self.out@.last() == vtok(TokenKind::Semicolon, anchor));
                            }
                        }
                    }
                    break ;
                },
                _ => break ,
            }
        }
        Ok(())
    }
}

} // verus!
