//! Nested type definitions, flattened.
//!
//! `define` reads a struct or enum definition whose fields may hold further
//! definitions inline, hoists each inline definition out as a definition of its
//! own (leaving its name in its place) and emits the flat declarations.
//! `retrieve` turns `a, b from s` into one binding statement per name.
//!
//! Input and output are token trees ([`token::Token`]); the grammar, the
//! flattening and the emitted tokens are specified over their views.
use vstd::prelude::*;

pub mod token;
pub mod ast;
pub mod interpreter;
pub mod builder;
pub mod parser;
pub mod retrieve;
pub mod laws;
pub mod syntax_laws;
pub mod text;
pub mod types;

use crate::ast::Define;
use crate::builder::build_tokens;
use crate::interpreter::flatten;
use crate::parser::{SyntaxError, parse_define_spec};
use crate::retrieve::{Retrieve, bindings_tokens, parse_retrieve_spec};
use crate::token::{Token, view_tokens};

verus! {

/// Reads one (possibly nested) definition and returns the declarations of the
/// flattened definitions, the outermost first; or the syntax error. When the
/// grammar is met, the only error left is `ExpectedType`, where syn refused
/// an existing type (see `Define::parse` and `Define::accept_types`).
pub fn define(content: Vec<Token>) -> (r: Result<Vec<Token>, SyntaxError>)
    ensures
        match parse_define_spec(view_tokens(content@)) {
            Ok(n) => {
                &&& r matches Ok(out) ==> view_tokens(out@) == build_tokens(flatten(n))
                &&& r matches Err(e) ==> e == SyntaxError::ExpectedType
            },
            Err(e) => r == Err::<Vec<Token>, SyntaxError>(e),
        },
{
    match Define::parse(&content) {
        Ok(d) => Ok(d.interpret().build()),
        Err(e) => Err(e),
    }
}

/// Reads `a, b, .. from s` and returns `let a = s.a; let b = s.b; ..`; or the
/// syntax error.
pub fn retrieve(stream: Vec<Token>) -> (r: Result<Vec<Token>, SyntaxError>)
    ensures
        match parse_retrieve_spec(view_tokens(stream@)) {
            Ok(x) => r matches Ok(out) && view_tokens(out@) == bindings_tokens(x.idents, x.target),
            Err(e) => r == Err::<Vec<Token>, SyntaxError>(e),
        },
{
    match Retrieve::parse(&stream) {
        Ok(x) => Ok(x.build()),
        Err(e) => Err(e),
    }
}

} // verus!
