//! A small ahead-of-time compiler from a C-like language to x86-64 assembly
//! in Intel syntax.
//!
//! A source text is cut into tokens ([`token`]), parsed into a syntax tree
//! with names bound and frame slots laid out ([`parse`], after the grammar
//! in [`grammar`]), and written out as an assembly listing ([`assembly`],
//! after the text in [`listing`]). [`compile`] runs the three in a row.

use vstd::prelude::*;
use vstd::utf8::encode_utf8;

pub mod assembly;
pub mod ast;
pub mod driver;
pub mod grammar;
pub mod laws;
pub mod listing;
pub mod parse;
pub mod text;
pub mod token;
pub mod types;

use crate::assembly::{asm_error_text, AsmError, AsmGenerator};
use crate::grammar::{g_program, Scope};
use crate::listing::listing;
use crate::parse::{error_text, ParseError, Parser};
use crate::token::{caret_line, lex, tokenize, TokenError, Tokens};
use crate::types::Type;

verus! {

/// Why a source text could not be compiled: the failure of the phase that
/// met it first.
#[derive(Debug)]
pub enum CompileError {
    Token(TokenError),
    Parse(ParseError),
    Asm(AsmError),
}

impl CompileError {
    /// The diagnostic line for this error.
    pub fn to_string(&self) -> (line: String)
        ensures
            line@ == match *self {
                CompileError::Token(e) => caret_line(e.pos as nat, "Cannot tokenize!"@),
                CompileError::Parse(e) => caret_line(e.pos as nat, error_text(e.error)),
                CompileError::Asm(e) => asm_error_text(e),
            },
    {
        match self {
            CompileError::Token(e) => e.to_string(),
            CompileError::Parse(e) => e.to_string(),
            CompileError::Asm(e) => e.to_string(),
        }
    }
}

/// The declarations before anything is parsed: none.
pub open spec fn empty_scope() -> Scope {
    Scope {
        locals: Seq::empty(),
        globals: Seq::empty(),
        funcs: Seq::empty(),
        literals: Seq::empty(),
        cur_type: Type::Int8,
    }
}

/// Compiles a source text to its assembly listing.
///
/// The text is cut into tokens, the tokens are parsed as a program, and the
/// listing of the program is written with labels numbered from 0. The
/// first phase that fails gives the error, and there is no listing then.
pub fn compile(source: &str) -> (res: Result<String, CompileError>)
    ensures
        match lex(encode_utf8(source@)) {
            Err(at) => res matches Err(CompileError::Token(e)) && e.pos == at,
            Ok(stream) => match g_program(empty_scope(), stream, 0, Seq::empty()) {
                Err(f) => res matches Err(CompileError::Parse(e)) && e.is(f),
                Ok(p) => match listing(p.value, p.scope.literals, 0) {
                    Err(e) => res matches Err(CompileError::Asm(f)) && f == e,
                    Ok(t) => res matches Ok(s) && s@ == t,
                },
            },
        },
{
    let token_list = match tokenize(source) {
        Ok(list) => list,
        Err(e) => {
            return Err(CompileError::Token(e));
        },
    };
    let mut tokens = Tokens::new(token_list);
    let mut parser = Parser::new();
    let nodes = match parser.program(&mut tokens) {
        Ok(nodes) => nodes,
        Err(e) => {
            return Err(CompileError::Parse(e));
        },
    };
    let literals = parser.literals();
    let mut generator = AsmGenerator::new();
    match generator.gen_asm(&nodes, literals) {
        Ok(text) => Ok(text),
        Err(e) => Err(CompileError::Asm(e)),
    }
}

} // verus!
