//! A benchmarking driver for a program-slicing analysis: it enumerates
//! function bodies, runs a configuration matrix of analysis variants over
//! each body, aggregates the reported dependency sets, and correlates them
//! with lexical source tokens to produce line-level locality statistics.
//!
//! The slicing engine itself and the compiler frontend that supplies bodies
//! are external collaborators; every decision this crate makes about their
//! outputs is stated over plain values and verified.

pub mod aggregate;
pub mod body;
pub mod config;
pub mod corpus;
pub mod guide;
pub mod lex;
pub mod lines;
pub mod runner;
pub mod span;
pub mod study;
pub mod targets;
pub mod text;
pub mod tokens;
