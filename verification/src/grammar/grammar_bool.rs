//! The tree of a written formula: variables by name, the connectives `!`,
//! `&` and `|`, and brackets, which the tree keeps.

use vstd::prelude::*;

verus! {

/// A written formula. The unit fields stand where the text has a symbol.
#[derive(Debug, PartialEq, Eq)]
pub enum Expr {
    Var(String),
    Neg((), Box<Expr>),
    And(Box<Expr>, (), Box<Expr>),
    Or(Box<Expr>, (), Box<Expr>),
    Bracket((), Box<Expr>, ()),
}

/// White space between the symbols of a written formula: it carries nothing.
#[derive(Debug, Clone, Copy, PartialEq, Eq)]
pub struct Whitespace {
    _whitespace: (),
}

/// What a written formula is, with each variable's name as a sequence of
/// characters.
pub enum Formula {
    Var(Seq<char>),
    Neg(Box<Formula>),
    And(Box<Formula>, Box<Formula>),
    Or(Box<Formula>, Box<Formula>),
    Bracket(Box<Formula>),
}

impl Expr {
    /// The formula that this tree writes down.
    pub open spec fn formula(&self) -> Formula
        decreases self,
    {
        match self {
            Expr::Var(name) => Formula::Var(name@),
            Expr::Neg(_, inner) => Formula::Neg(Box::new(inner.formula())),
            Expr::And(left, _, right) => Formula::And(
                Box::new(left.formula()),
                Box::new(right.formula()),
            ),
            Expr::Or(left, _, right) => Formula::Or(
                Box::new(left.formula()),
                Box::new(right.formula()),
            ),
            Expr::Bracket(_, inner, _) => Formula::Bracket(Box::new(inner.formula())),
        }
    }
}

impl View for Expr {
    type V = Formula;

    /// The formula that this tree writes down.
    open spec fn view(&self) -> Formula {
        self.formula()
    }
}

impl Clone for Expr {
    /// A copy of the whole tree.
    fn clone(&self) -> (copy: Self)
        ensures
            copy == *self,
        decreases self,
    {
        match self {
            Expr::Var(name) => Expr::Var(name.clone()),
            Expr::Neg(_, inner) => Expr::Neg((), Box::new((&**inner).clone())),
            Expr::And(left, _, right) => Expr::And(
                Box::new((&**left).clone()),
                (),
                Box::new((&**right).clone()),
            ),
            Expr::Or(left, _, right) => Expr::Or(
                Box::new((&**left).clone()),
                (),
                Box::new((&**right).clone()),
            ),
            Expr::Bracket(_, inner, _) => Expr::Bracket((), Box::new((&**inner).clone()), ()),
        }
    }
}

} // verus!
