//! Language analysis for an interactive GraphQL editor: tokenizer, parser
//! with error recovery, schema model, completion analyzer and the
//! substitution language of magic values.

pub mod analyzer;
pub mod analyzer_laws;
pub mod ast;
pub mod editor;
pub mod editor_printer;
pub mod file_selector;
pub mod grammar;
pub mod introspection;
pub mod json;
pub mod json_path;
pub mod magic;
pub mod magic_command;
pub mod numbers;
pub mod parser;
pub mod parser_laws;
pub mod replacement_laws;
pub mod scan;
pub mod schema;
pub mod stdin_reader;
pub mod strings;
pub mod terminal_handler;
pub mod text;
pub mod text_laws;
pub mod tokenizer;
pub mod tokenizer_laws;
pub mod util;
