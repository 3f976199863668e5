//! Lexing and parsing of Volt source text.

pub mod chars;
pub mod token;
pub mod ast;
pub mod lexer;
pub mod parser;
pub mod grammar;

pub use ast::{
    AssignOperator, Attribute, AttributeValue, BinaryOp, ComponentDecl, ComputedDecl, ElementNode, EventBinding,
    Expr, ExternBlock, ExternFnDecl, FnDecl, Program, RenderBlock, SignalDecl, Stmt, TemplateNode, TopLevelItem,
    Type, UnaryOp,
};
pub use lexer::Lexer;
pub use parser::Parser;
pub use token::{Span, Token, TokenKind};

use vstd::prelude::*;

verus! {

/// Lexes and parses a whole source text into a program: the first lexing
/// error (see `lex`), or what the grammar gives on the tokens (see
/// `program_s`).
pub fn parse(input: &str) -> (r: Result<Program, String>)
    requires
        input@.len() < usize::MAX,
    ensures
        match lexer::lex(input@) {
            Err(m) => r matches Err(e) && e@ == m,
            Ok(ts) => match grammar::program_s(ts) {
                Ok(p) => r matches Ok(x) && x@ == p,
                Err(m) => r matches Err(e) && e@ == m,
            },
        },
{
    let mut lexer = Lexer::new(input);
    let tokens = lexer.tokenize()?;
    let mut parser = Parser::new(tokens);
    parser.parse_program()
}

} // verus!
