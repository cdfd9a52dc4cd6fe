//! A compiler from a small bottom-up esoteric language to C.
//!
//! The pipeline is lexer (text to token lines), parser (token lines to an
//! intermediate representation) and code generator (representation to C).

pub mod string_builder;
pub mod token;
pub mod utility;
pub mod lexer;
pub mod representation;
pub mod parser;
pub mod compiler;
pub mod pipeline;
pub mod arguments;
pub mod dump;
