//! Tseitin encoding of propositional formulas into DIMACS CNF.
//!
//! A formula is written with variables, `&`, `|`, `!`, brackets and the
//! constants `0` and `1`. [`lexer`] turns its text into tokens and a registry
//! of its variables ([`var`]), [`parser`] turns the tokens into a tree
//! ([`expr`]), and [`algorithm`] turns the tree into clauses ([`cnf`]) that
//! can be satisfied exactly where the formula can ([`semantics`]). [`input`]
//! reads a text in one step.
//!
//! [`grammar`], [`expression`] and [`tseitin`] work on formulas whose
//! variables are held by name: their trees, walks over them, and a
//! transformation that numbers its variables by position.

pub mod algorithm;
pub mod cnf;
pub mod expr;
pub mod expression;
pub mod grammar;
pub mod input;
pub mod lexer;
pub mod parser;
pub mod semantics;
pub mod text;
pub mod tseitin;
pub mod types;
pub mod var;
