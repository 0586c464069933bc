//! A Forth interpreter: a parser from text to expressions, an evaluator of expressions
//! against a data stack, a return stack, a memory and a dictionary, and the primitive words,
//! each with its behaviour stated as a specification and proved.
use vstd::prelude::*;

pub mod builtins;
pub mod errors;
pub mod expressions;
pub mod forth;
pub mod laws;
pub mod numbers;
pub mod parser;
pub mod reader;
pub mod tail;
pub mod text;
