//! A small imperative scripting language: tokenizers, parsers and a
//! tree-walking evaluator over a flat variable store.
//!
//! Numbers are IEEE 754 doubles, held as their 64 bit patterns. The library
//! itself never computes on doubles: where an evaluation needs a sum, the
//! value of a literal or the text of a number, it stops with a [`host::Request`],
//! and goes on once the host has recorded the answer.
//!
//! The way of a program: [`tokenizer::tokenize`] cuts its text into statement
//! tokens, [`parser::parse`] makes statements of them, and
//! [`runtime::execute`] runs them step by step. The expressions in it go from
//! [`expr_tokenizer::tokenize_expr`] through
//! [`exprtoken_processor::process_expr_tokens`] and
//! [`expr_parser::parse_expr`] to [`evaluator::Environment::evaluate`].

pub mod error;
pub mod evaluator;
pub mod expr_parser;
pub mod expr_tokenizer;
pub mod exprtoken_processor;
pub mod host;
pub mod number;
pub mod parser;
pub mod runtime;
pub mod scan;
pub mod text;
pub mod tokenizer;
pub mod val;
