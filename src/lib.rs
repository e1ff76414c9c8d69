//! Front-end lowering and memory elimination for a circuit compiler.
//!
//! `term` holds the expression graph and its sorts, `eval` its meaning,
//! `syntax` decodes a program's JSON syntax tree, `lower` turns the program
//! into a [`computation::Computation`], and `mem`
//! removes random-access memory operators from the result; `preserve` proves
//! that this removal keeps the value of every well-sorted term.

pub mod term;
pub mod table;
pub mod computation;
pub mod lower;
pub mod mem;
pub mod eval;
pub mod front;
pub mod preserve;
pub mod syntax;
