//! An interpreter for a small Pascal subset: lexer, parser, scope analysis and a
//! tree-walking execution engine over an explicit call stack.
//!
//! Reals are carried as bit patterns. Reading a real literal and the four
//! operations on reals are floating-point work, which the library does not
//! do itself: the caller hands in both as functions.

use vstd::prelude::*;
use vstd::utf8::encode_utf8;

pub mod ast;
pub mod dictionary;
pub mod error;
pub mod interpreter;
pub mod lexer;
pub mod parser;
pub mod semantic_analyzer;
pub mod symbols;
pub mod text;
pub mod tokens;

use crate::ast::{well_formed, Node};
use crate::error::{Error, ErrorView};
use crate::interpreter::{
    function_of, functional, no_calls, run, total, Interpreter, RealOperator,
};
use crate::lexer::{literal_function, reads_every_literal, reads_literals_alike, Lexer};
use crate::parser::{parse_text, Parser, Source};
use crate::semantic_analyzer::{analyze, SemanticAnalyzer};
use crate::symbols::{ActivationRecordView, CallStack};
use crate::tokens::Real;

verus! {

/// Analyzes a tree and, if the analysis accepts it, runs it on an empty call
/// stack. The result is the call stack that the run leaves.
///
/// Nothing runs unless the whole tree has passed the analysis: if the
/// analysis fails, its error is the result. The tree is left with its calls
/// resolved.
pub fn execute<A: Fn(RealOperator, Real, Real) -> Real>(tree: &mut Node, arithmetic: A) -> (result:
    Result<CallStack, Error>)
    requires
        well_formed(old(tree)@),
        total(arithmetic),
        functional(arithmetic),
    ensures
        match analyze(old(tree)@, SemanticAnalyzer::global_scope()) {
            Err(error) => result matches Err(Error::Semantic(raised)) && raised@ == error,
            Ok((resolved, _)) => final(tree)@ == resolved && match run(
                function_of(arithmetic),
                no_calls(),
                resolved,
                Seq::<ActivationRecordView>::empty(),
            ) {
                Err(failure) => result matches Err(Error::Evaluation(raised)) && raised
                    == failure.error,
                Ok(evaluation) => result matches Ok(stack) && stack@ == evaluation.stack,
            },
        },
{
    let mut analyzer = SemanticAnalyzer::new();
    match analyzer.visit(tree) {
        Ok(_) => {},
        Err(error) => {
            return Err(Error::Semantic(error));
        },
    }
    let mut interpreter = Interpreter::new(arithmetic);
    match interpreter.visit(tree) {
        Ok(_) => Ok(interpreter.into_call_stack()),
        Err(error) => Err(Error::Evaluation(error)),
    }
}

/// Lexes, parses, analyzes and runs a source text. The result is the call
/// stack that the run leaves, or the error of the first stage that fails.
pub fn interpret<L: Fn(String) -> Option<Real>, A: Fn(RealOperator, Real, Real) -> Real>(
    source: String,
    real_literal: L,
    arithmetic: A,
) -> (result: Result<CallStack, Error>)
    requires
        reads_every_literal(real_literal),
        reads_literals_alike(real_literal),
        total(arithmetic),
        functional(arithmetic),
    ensures
        match parse_text(
            Source { literals: literal_function(real_literal), text: encode_utf8(source@) },
        ) {
            Err(error) => result matches Err(raised) && raised@ == error,
            Ok(tree) => match analyze(tree, SemanticAnalyzer::global_scope()) {
                Err(error) => result matches Err(raised) && raised@ == ErrorView::Semantic(error),
                Ok((resolved, _)) => match run(
                    function_of(arithmetic),
                    no_calls(),
                    resolved,
                    Seq::<ActivationRecordView>::empty(),
                ) {
                    Err(failure) => result matches Err(raised) && raised@
                        == ErrorView::Evaluation(failure.error),
                    Ok(evaluation) => result matches Ok(stack) && stack@ == evaluation.stack,
                },
            },
        },
{
    let lexer = Lexer::new(source, real_literal);
    let mut parser = Parser::new(lexer)?;
    let mut tree = parser.parse()?;
    execute(&mut tree, arithmetic)
}

} // verus!
