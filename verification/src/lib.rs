//! A verified evaluator for a small spreadsheet submission language.
//!
//! A submission document carries spreadsheets of formula cells written in a
//! compact formula language (`SUM`, `MULTIPLY`, `DIVIDE`, `CONCAT`, `AND`,
//! `OR`, `NOT`, `GT`, `EQ`, `IF`, literals, and cell addresses such as `A1`).
//! The crate tokenizes the document text, parses it into an expression tree
//! while assigning every cell a synthetic slot address, flattens each cell
//! into a label/symbol encoding, and evaluates every expression to a scalar
//! result string.

pub mod text;
pub mod words;
pub mod token;
pub mod ast;
pub mod eval;
pub mod flatten;
pub mod lexer;
pub mod parser;
pub mod resolver;
pub mod laws;
