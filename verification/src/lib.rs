//! An arithmetic-expression front end: it turns a textual formula such as
//! `-3 + 2 * (x ^ 2)` into an expression tree, and folds a finished tree
//! into a result through a per-node-kind composition interface.
//!
//! The pipeline runs strictly left to right: characters become positioned
//! tokens, tokens become operand/operator symbols (interning variable names
//! into an ordered table), prefix operators are folded into their operands,
//! the infix sequence is reordered into postfix form, and the postfix
//! sequence is reduced to a single tree by a small stack machine.

pub mod arguments;
pub mod compose;
pub mod composer;
pub mod error;
pub mod metadata;
pub mod parser;
pub mod shunting;
pub mod symbols;
pub mod token;
pub mod tokenizer;
pub mod tree;
pub mod unary;
pub mod variables;
