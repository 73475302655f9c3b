pub mod text;
pub mod token;
pub mod lexer;
pub mod ast;
pub mod parser;
pub mod toml_model;
pub mod value;
pub mod functions;
pub mod evaluator;
pub mod engine;
pub mod template;
pub mod replay;
pub mod config;
pub mod colourscheme;
