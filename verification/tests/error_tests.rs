use sapphire_compiler::error::CompileError;
use sapphire_compiler::layout::{LayoutError, LayoutErrorKind};
use sapphire_compiler::lexer::{LexError, LexErrorKind, TokenKind};
use sapphire_compiler::parser::{ParseError, ParseErrorKind};
use sapphire_compiler::span::Span;

#[test]
fn code_differs_per_variant() {
    let lex = CompileError::from_lex(LexError::new(
        LexErrorKind::UnexpectedChar('@'),
        Span::new(0, 1),
    ));
    let layout = CompileError::from_layout(LayoutError::new(
        LayoutErrorKind::UnclosedExplicitBlock,
        Span::new(0, 1),
    ));
    let parse = CompileError::from_parse(ParseError::new(
        ParseErrorKind::Unexpected(TokenKind::Eof),
        Span::new(0, 1),
    ));

    assert_eq!(lex.code(), "sapphire/lex-error");
    assert_eq!(layout.code(), "sapphire/layout-error");
    assert_eq!(parse.code(), "sapphire/parse-error");
}

#[test]
fn message_does_not_repeat_span_prefix() {
    let err = CompileError::from_lex(LexError::new(
        LexErrorKind::UnexpectedChar('@'),
        Span::new(4, 5),
    ));
    let msg = err.message();
    assert!(!msg.starts_with("lex error"));
    assert!(msg.contains("unexpected character"));
}

#[test]
fn span_propagates_from_inner() {
    let s = Span::new(10, 20);
    let err = CompileError::from_parse(ParseError::new(
        ParseErrorKind::UnexpectedEof { expected: "=" },
        s,
    ));
    assert_eq!(err.span, s);
}
