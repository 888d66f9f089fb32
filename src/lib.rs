//! An arithmetic-expression engine: a tokenizer, a grammar validator, a
//! precedence-driven evaluator that builds expression trees, and a store of
//! variable and user-function bindings. Numeric work on the finished trees is
//! left to the host, which folds them with IEEE-754 doubles.

pub mod calc_ui;
pub mod engine;
pub mod error;
pub mod function;
pub mod names;
pub mod session;
pub mod solve;
pub mod token;
pub mod ui;
pub mod validate;
