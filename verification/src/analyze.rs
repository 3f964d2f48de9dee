//! One-shot front-end analysis: lex, layout, parse.
//!
//! `analyze` runs the three passes and reports whichever failed as a
//! `CompileError`. The passes stop at their first error, so there is at
//! most one entry in `errors`.
use vstd::prelude::*;

use vstd::string::StringSliceAdditionalSpecFns;

use crate::ast::Module;
use crate::error::{CompileError, CompileErrorKind};
use crate::layout::{layout_result, resolve_with_source};
use crate::lexer::spec::token_stream_of;
use crate::lexer::{error_within, tokenize, Token};
use crate::parser::{parse_tokens, parser_error};

verus! {

/// Outcome of `analyze`: the module when every pass succeeded, and
/// otherwise the one error that stopped the run.
#[derive(Debug, PartialEq, Eq)]
pub struct AnalysisResult {
    pub module: Option<Module>,
    pub errors: Vec<CompileError>,
}

impl AnalysisResult {
    /// True iff no front-end error was raised.
    pub fn is_ok(&self) -> (r: bool)
        ensures
            r == (self.errors@.len() == 0),
    {
        self.errors.len() == 0
    }
}

/// What `analyze` promises of its result for a source text.
pub open spec fn analysis_outcome(source: Seq<u8>, r: AnalysisResult) -> bool {
    &&& (r.module is Some <==> r.errors@.len() == 0)
    &&& r.errors@.len() <= 1
    &&& r.module is Some ==> exists|toks: Seq<Token>, out: Seq<Token>|
        token_stream_of(source, toks) && layout_result(toks, out) && out[0].kind is LBrace
    &&& r.errors@.len() == 1 ==> {
        let e = r.errors@[0];
        &&& e.span == match e.kind {
            CompileErrorKind::Lex(x) => x.span,
            CompileErrorKind::Layout(x) => x.span,
            CompileErrorKind::Parse(x) => x.span,
        }
        &&& e.kind matches CompileErrorKind::Lex(x) ==> error_within(x, source.len() as int)
        &&& e.kind matches CompileErrorKind::Parse(x) ==> parser_error(x.kind)
    }
}

/// Run the lex / layout / parse pipeline end to end.
///
/// On success the result carries the module and no error; on failure
/// it carries no module and the one error of the pass that failed.
pub fn analyze(source: &str) -> (r: AnalysisResult)
    ensures
        analysis_outcome(source.spec_bytes(), r),
{
    let tokens = match tokenize(source) {
        Ok(ts) => ts,
        Err(e) => {
            return AnalysisResult { module: None, errors: vec![CompileError::from_lex(e)] };
        },
    };
    let ghost toks = tokens@;
    let resolved = match resolve_with_source(tokens, source) {
        Ok(ts) => ts,
        Err(e) => {
            return AnalysisResult { module: None, errors: vec![CompileError::from_layout(e)] };
        },
    };
    match parse_tokens(resolved.as_slice()) {
        Ok(module) => {
            proof {
                assert(layout_result(toks, resolved@));
            }
            AnalysisResult { module: Some(module), errors: Vec::new() }
        },
        Err(e) => AnalysisResult { module: None, errors: vec![CompileError::from_parse(e)] },
    }
}

} // verus!
