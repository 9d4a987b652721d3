//! Draca: a small Lisp-family language with hierarchically namespaced
//! bindings, evaluated by a verified abstract machine.
//!
//! - [`expression`] holds the values of the language, which are also its
//!   syntax tree, and prints them.
//! - [`namespace`] and [`env`] hold the bindings: each under a fully
//!   qualified name, looked up by that name or through the namespaces in
//!   scope.
//! - [`semantics`] states what evaluation means, as the transition function
//!   of an abstract machine over mathematical values. [`frames`] proves
//!   that an evaluation never depends on what waits below it, and [`laws`]
//!   proves what follows for the forms of the language.
//! - [`eval`] is the machine itself. It carries out each transition exactly
//!   as [`semantics`] states it, and suspends where the host is needed: for
//!   arithmetic and comparison, for reading a source file, for printing.
//! - [`primitives`] are the primitive operations that need no host.
//! - [`parser`] reads program text; [`roundtrip`] proves that it reads back
//!   what [`expression`] prints. [`lexer`] splits a text into tokens.
//! - [`repl`] works out what an interactive prompt offers to complete.
//! - [`jupiter`] is a tree of namespaces with values at its fragments.
//! - [`interp`] has the types of an environment of functions.
//! - [`text`] has the character-level helpers that the others share.
//!
//! A host evaluates an expression with [`eval::eval`], to which it hands a
//! function that answers the machine's requests. Or it drives the machine
//! itself: it makes an [`eval::Machine`] from the environment and the
//! expression, lets it [`eval::Machine::run`], answers each
//! [`eval::Request`] with [`eval::Machine::reply`] until the machine is
//! done, and takes the result and the environment back with
//! [`eval::Machine::finish`].
//!
//! Numbers are held as their decimal text. The library reads, prints and
//! hands them on; what a number is worth is the host's business.

pub mod env;
pub mod eval;
pub mod expression;
pub mod frames;
pub mod interp;
pub mod jupiter;
pub mod laws;
pub mod lexer;
pub mod namespace;
pub mod parser;
pub mod primitives;
pub mod repl;
pub mod roundtrip;
pub mod semantics;
pub mod text;
