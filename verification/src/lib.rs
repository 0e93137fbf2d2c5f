//! A static-analysis toolchain for a PHP-like language: lexer, error-recovering
//! parser, configurable lint rules and a token-splicing fixer.
//!
//! The pipeline is [`pipeline::parse`]: it lexes a source ([`lexer`]), parses
//! its tokens ([`parser`], which computes the functions of [`grammar`]), and
//! runs the configured rules ([`linter`]) on the syntax tree ([`ast`]). What
//! it finds are diagnostics ([`rich`]); [`formatter::apply_fix`] repairs one
//! of them at a time on the tokens.
//!
//! Every executable function is verified against a contract over the
//! mathematical models of its arguments. The laws of the library are proof
//! functions: the span law in [`lexer`], the round trip in [`roundtrip`], the
//! recovery bound in [`bounds`] and [`recovery`], the soundness of the
//! parser in [`derivation`].

pub mod ast;
pub mod bounds;
pub mod config;
pub mod derivation;
pub mod errors;
pub mod formatter;
pub mod grammar;
pub mod lexer;
pub mod linter;
pub mod parser;
pub mod pipeline;
pub mod recovery;
pub mod rich;
pub mod roundtrip;
pub mod rule;
pub mod span;
pub mod stream;
pub mod text;
pub mod token;
