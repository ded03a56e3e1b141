//! A small Lisp: tokenizer, parser and an evaluator with lexical scope,
//! closures, special forms and a fixed set of native procedures.
//!
//! Every executable function carries a contract over the mathematical model
//! of the language: [`tokenizer`] and [`parser`] say what the tokens and the
//! expression of a source text are, [`scope`] what a name means in a frame,
//! and [`semantics`] what an expression evaluates to. What holds of every
//! evaluation is proved in [`laws`], [`fuel`] and [`growth`].

pub mod builtin;
pub mod eval;
pub mod float;
pub mod fuel;
pub mod growth;
pub mod laws;
pub mod parser;
pub mod scope;
pub mod semantics;
pub mod special_forms;
pub mod text;
pub mod tokenizer;
pub mod value;
