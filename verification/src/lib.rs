//! A tree-walking interpreter for a small Scheme dialect.
//!
//! Source text is cut into tokens (`lexer`), tokens are read into
//! expression trees (`parser`), and trees are evaluated against a store of
//! lexical scopes (`env`, `procedure`, `evaluator`, `primitives`). A
//! session (`repl`) does this line by line and names each result.
//!
//! What all of this computes is written down once, as mathematics: the
//! tokens of a text in `lexer`, the expressions of a token sequence in
//! `parser`, and the outcome of an evaluation in `semantics`. Every
//! executable function is proved to compute exactly that. `laws` and
//! `roundtrip` prove what follows from it: that scoping is lexical, that
//! closures see later assignments, that quoting evaluates nothing, and
//! that what was read is read again from its own text.
//!
//! Two things differ from what one may expect of a Scheme. Evaluation takes
//! a depth, the number of times it may nest, and fails with an error value
//! where a deeper recursion would exhaust the stack. And inexact numbers
//! are decimals, a significand and a power of ten, which are compared with
//! all other numbers by exact value; the library does no binary floating
//! point.

pub mod number;
pub mod text;
pub mod lexer;
pub mod serr;
pub mod parser;
pub mod printer;
pub mod procedure;
pub mod env;
pub mod semantics;
pub mod evaluator;
pub mod primitives;
pub mod repl;
pub mod laws;
pub mod lifetime;
pub mod values;
pub mod roundtrip;
