//! The vocabulary shared by the lexer, the parser and the encoder.

use vstd::prelude::*;

verus! {

/// An operator symbol as it appears in the input text.
#[derive(Clone, Copy, Debug, PartialEq, Eq, Structural)]
pub enum Op {
    And,
    Or,
    Not,
}

/// A leaf of a formula: a variable, named by its index, or a truth constant.
#[derive(Clone, Copy, Debug, PartialEq, Eq, Structural)]
pub enum Atom {
    Var(usize),
    True,
    False,
}

} // verus!
