//! An evaluator for a small language of arithmetic expressions and
//! user-defined functions.
//!
//! - `tokenizer`: the input as tokens tagged with their byte offsets.
//! - `grammar`: the language's grammar, as functions over token sequences.
//! - `parser`: a recursive-descent parser proved to compute `grammar`.
//! - `ops`: the syntax tree and its model.
//! - `intrinsic`: the built-in functions and their arities.
//! - `env`: the user functions of the tree-walking backend: installing,
//!   finding, resolving calls, binding parameters, the target of `sum`.
//! - `jit`: what the compiling backend decides each round: the `_repl`
//!   wrapper, the functions that changed, what to compile, what to cache.
//! - `error`: parse errors and their layered, highlighted messages.
//! - `laws`: properties that relate several of the above.

pub mod env;
pub mod error;
pub mod grammar;
pub mod intrinsic;
pub mod jit;
pub mod laws;
pub mod ops;
pub mod parser;
pub mod tokenizer;
pub mod util;
