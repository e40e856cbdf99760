//! Hyper: the front end of a Python-shaped language (scanner, parser, type
//! checker, module bookkeeping), its string methods and its JSON text
//! format, with their behaviour stated as Verus contracts.

pub mod text;
pub mod error;
pub mod scanner;
pub mod escapes;
pub mod ast;
pub mod grammar;
pub mod parser;
pub mod types;
pub mod literals;
pub mod semantic;
pub mod scoping;
pub mod driver;
pub mod unicode;
pub mod strings;
pub mod module;
pub mod ir;
pub mod lower;
pub mod operators;
pub mod cli;
pub mod json;
pub mod render;
pub mod builtins;
pub mod values;
pub mod rtlist;
pub mod rtcollections;
pub mod fileio;
pub mod filebuf;
