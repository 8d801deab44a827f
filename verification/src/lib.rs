//! Front end for a small propositional-logic notation with a dual
//! ASCII/Unicode surface syntax: a tokenizer that normalizes the two
//! spellings of each fixed token and classifies Unicode identifiers, a
//! parser that builds propositions, typed lambda terms and top-level
//! bindings, and a diagnostic mapper that turns parse failures into
//! renderable, character-boundary-correct source labels.

pub mod ast;
pub mod codespan;
pub mod error;
pub mod laws;
pub mod lex;
pub mod parser;
pub mod token_wrap;
