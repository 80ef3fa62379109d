#![verifier::loop_isolation(false)]
//! Brief: a strict markup language for documents read by people and LLMs.
//! Lexer, parser, validators, HTML / LLM emitters, formatter and code-block
//! minifiers.
pub mod text;
pub mod span;
pub mod minify;
pub mod diag;
pub mod strmap;
pub mod shortcode;
pub mod ast;
pub mod inline;
pub mod token;
pub mod lexer;
pub mod frontmatter;
pub mod parser;
pub mod emit;
pub mod project;
pub mod validate;
pub mod resolve;
pub mod fmt;
pub mod convert;
pub mod analysis;
pub mod web;
pub mod config;
pub mod cli;
