//! Lexer, parser, validator and TypeScript client generator for `.erpc`
//! endpoint definition files.
pub mod position;
pub mod config;
pub mod text;
pub mod number;
pub mod input_reader;
pub mod pattern;
pub mod lexer;
pub mod parser;
pub mod validator;
pub mod generator;
