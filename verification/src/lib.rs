//! Core of a small scripting language: a lexical scanner, a recursive-descent
//! parser, a dynamically typed value model, and a tree-walking evaluator with
//! a flat variable environment.

pub mod num;
mod text;
pub mod scanner;
pub mod expr;
pub mod environment;
pub mod statement;
pub mod interpreter;
pub mod parser;
