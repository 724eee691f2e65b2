//! Formulas over named variables, as they are written.

pub mod grammar_bool;
