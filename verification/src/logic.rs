//! Console input: the tokenizer and the commands built from its tokens.

pub mod console;
pub mod input_parser;
