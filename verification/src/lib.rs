//! A small-language front end: source text is turned into a validated, typed
//! syntax tree and a minimal register-machine bytecode listing.
//!
//! The pipeline has four stages, each fully consuming the previous stage's
//! output: a lexer producing a token sequence, a recursive-descent parser
//! producing a statement tree, a scope-based resolver enforcing declaration,
//! mutability and coercion rules, and a register-allocating bytecode emitter.
//! The first three stages accumulate diagnostics and keep going; the emitter
//! is fail-fast.
#![verifier::loop_isolation(false)]

pub mod ast;
pub mod codegen;
pub mod errors;
pub mod lexer;
pub mod parser;
pub mod pipeline;
pub mod resolver;
pub mod scope;
pub mod span;
pub mod token;
