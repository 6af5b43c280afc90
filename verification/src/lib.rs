//! Front end and evaluation core of a minimal S-expression language.
//!
//! Source text is interned in a store ([`code`]) and parsed, by the grammar
//! of [`grammar`], into an expression with the span of text it covers
//! ([`parser`], [`ast`]). Expressions are evaluated against a chain of
//! scopes ([`interpreter`], [`scope`]).
//!
//! Every function states what it returns over a mathematical model of its
//! arguments: the views of [`ast`], the functions on bytes of [`grammar`],
//! and the functions `spec_eval` and `spec_intern`. The laws that relate
//! several functions are proof functions named `lemma_..`.

pub mod ast;
pub mod code;
pub mod grammar;
pub mod interpreter;
pub mod locality;
pub mod parser;
pub mod scope;
pub mod text;
