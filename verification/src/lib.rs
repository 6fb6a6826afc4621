//! Front end of the Elgin compiler: a lexer, a Pratt parser that builds a
//! position-annotated syntax tree, a lowering pass to a linear stack machine
//! and a constraint-based type inferencer.
//!
//! Every phase reports failures to a [`errors::Logger`] handed to it and
//! returns an absent result; none of them panics.
//!
//! What a phase computes is defined as a function on mathematical values,
//! and the phase is proved to compute it: [`lexing`] for [`lexer`],
//! [`grammar`] for [`parser`] (with [`expressions`] and [`statements`]),
//! [`lowering`] for [`irgen`], and [`inference`] for [`analysis`].
//! [`backend`] holds the rules by which a backend chooses what to build.
//! What holds of the results is proved in [`laws`].

pub mod text;
pub mod types;
pub mod errors;
pub mod scopes;

pub mod lexing;
pub mod lexer;

pub mod astgen;
pub mod grammar;
pub mod parser;
pub mod expressions;
pub mod statements;

pub mod ir;
pub mod lowering;
pub mod irgen;

pub mod inference;
pub mod analysis;

pub mod backend;

pub mod lowering_laws;
pub mod scope_laws;
pub mod label_laws;
pub mod laws;
