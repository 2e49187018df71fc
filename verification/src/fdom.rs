//! The overlay markup language: lexer, parser and HTML renderer, and the
//! processor that runs source text through all three.

pub mod lexer;
pub mod parser;
pub mod renderer;

use crate::fdom::lexer::{LexError, Lexer};
use crate::fdom::parser::{AstNode, Parser};
use crate::fdom::renderer::{Renderer, spec_render};
use vstd::prelude::*;

verus! {

/// Why processing a source failed: in the lexer, or in the parser.
#[derive(Debug)]
pub enum ProcessError {
    LexError(LexError),
    ParseError(String),
}

/// Runs markup source through lexer, parser and renderer.
pub struct FdomProcessor;

impl FdomProcessor {
    /// Parse markup source and render it to HTML: the output is the
    /// rendering of a document parsed from the source's tokens.
    pub fn process(source: &str) -> (r: Result<String, ProcessError>)
        ensures
            r matches Ok(html) ==> exists|node: AstNode|
                (#[trigger] spec_render(node)) == html@ && node is Document,
    {
        let mut lexer = Lexer::new(source);
        let tokens = match lexer.tokenize() {
            Ok(ts) => ts,
            Err(e) => {
                return Err(ProcessError::LexError(e));
            },
        };
        let mut parser = Parser::new(tokens);
        let ast = match parser.parse() {
            Ok(node) => node,
            Err(e) => {
                return Err(ProcessError::ParseError(e));
            },
        };
        let html = Renderer::render(&ast);
        proof {
            assert(spec_render(ast) == html@);
        }
        Ok(html)
    }

    /// Parse markup source to its document tree alone.
    pub fn parse_ast(source: &str) -> (r: Result<AstNode, ProcessError>)
        ensures
            r matches Ok(node) ==> node is Document,
    {
        let mut lexer = Lexer::new(source);
        let tokens = match lexer.tokenize() {
            Ok(ts) => ts,
            Err(e) => {
                return Err(ProcessError::LexError(e));
            },
        };
        let mut parser = Parser::new(tokens);
        match parser.parse() {
            Ok(node) => Ok(node),
            Err(e) => Err(ProcessError::ParseError(e)),
        }
    }
}

} // verus!
