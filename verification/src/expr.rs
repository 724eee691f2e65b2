//! The expression tree that the parser builds and the encoder reads.

use crate::text::{decimal, push_char, push_decimal};
use crate::types::Atom;
use vstd::prelude::*;
use vstd::std_specs::convert::FromSpecImpl;
use vstd::string::*;

verus! {

/// A binary connective.
#[derive(Clone, Copy, Debug, PartialEq, Eq, Structural)]
pub enum BiOp {
    And,
    Or,
}

/// A formula with its connectives in the order in which they apply. Two
/// expressions are equal where they are the same tree.
#[derive(Debug, PartialEq, Eq)]
pub enum Expr {
    Atom(Atom),
    BiOp(Box<Self>, BiOp, Box<Self>),
    Not(Box<Self>),
}

/// Whether `e` is a literal: an atom or a negated atom.
pub open spec fn is_literal(e: Expr) -> bool {
    match e {
        Expr::Atom(_) => true,
        Expr::Not(inner) => *inner is Atom,
        _ => false,
    }
}

/// Whether `e` is a clause: a literal or a disjunction of clauses.
pub open spec fn is_clause(e: Expr) -> bool
    decreases e,
{
    match e {
        Expr::BiOp(left, BiOp::Or, right) => is_clause(*left) && is_clause(*right),
        _ => is_literal(e),
    }
}

/// Whether `e` is in conjunctive normal form: a clause or a conjunction of
/// formulas in conjunctive normal form.
pub open spec fn in_cnf(e: Expr) -> bool
    decreases e,
{
    match e {
        Expr::BiOp(left, BiOp::And, right) => in_cnf(*left) && in_cnf(*right),
        _ => is_clause(e),
    }
}

/// Whether every variable of `e` is one of `1..=n_var`.
pub open spec fn vars_within(e: Expr, n_var: nat) -> bool
    decreases e,
{
    match e {
        Expr::Atom(Atom::Var(x)) => 1 <= x <= n_var,
        Expr::Atom(_) => true,
        Expr::Not(inner) => vars_within(*inner, n_var),
        Expr::BiOp(left, _, right) => vars_within(*left, n_var) && vars_within(*right, n_var),
    }
}

/// Whether the variable `v` occurs in `e`.
pub open spec fn occurs(e: Expr, v: int) -> bool
    decreases e,
{
    match e {
        Expr::Atom(Atom::Var(x)) => x == v,
        Expr::Atom(_) => false,
        Expr::Not(inner) => occurs(*inner, v),
        Expr::BiOp(left, _, right) => occurs(*left, v) || occurs(*right, v),
    }
}

/// The way `e` is written out: every connective with its arguments in
/// brackets, a variable as its index, a constant as `True` or `False`.
pub open spec fn text_of(e: Expr) -> Seq<char>
    decreases e,
{
    match e {
        Expr::BiOp(left, BiOp::And, right) => seq!['('] + text_of(*left) + " & "@ + text_of(*right)
            + seq![')'],
        Expr::BiOp(left, BiOp::Or, right) => seq!['('] + text_of(*left) + " | "@ + text_of(*right)
            + seq![')'],
        Expr::Not(inner) => "!("@ + text_of(*inner) + seq![')'],
        Expr::Atom(Atom::Var(index)) => decimal(index as nat),
        Expr::Atom(Atom::False) => "False"@,
        Expr::Atom(Atom::True) => "True"@,
    }
}

/// An expression over some variables is one over more variables too.
pub proof fn lemma_vars_within_more(e: Expr, n_var: nat, more: nat)
    requires
        vars_within(e, n_var),
        n_var <= more,
    ensures
        vars_within(e, more),
    decreases e,
{
    match e {
        Expr::Atom(_) => {},
        Expr::Not(inner) => {
            lemma_vars_within_more(*inner, n_var, more);
        },
        Expr::BiOp(left, _, right) => {
            lemma_vars_within_more(*left, n_var, more);
            lemma_vars_within_more(*right, n_var, more);
        },
    }
}

impl Clone for Expr {
    /// A copy of the whole tree.
    fn clone(&self) -> (copy: Self)
        ensures
            copy == *self,
        decreases self,
    {
        match self {
            Expr::Atom(atom) => Expr::Atom(*atom),
            Expr::BiOp(left, op, right) => Expr::BiOp(
                Box::new((&**left).clone()),
                *op,
                Box::new((&**right).clone()),
            ),
            Expr::Not(inner) => Expr::Not(Box::new((&**inner).clone())),
        }
    }
}

impl Expr {
    /// Whether the expression is a literal.
    fn is_literal(&self) -> (yes: bool)
        ensures
            yes == is_literal(*self),
    {
        match self {
            Expr::Atom(_) => true,
            Expr::Not(inner) => match &**inner {
                Expr::Atom(_) => true,
                _ => false,
            },
            _ => false,
        }
    }

    /// Whether the expression is a clause.
    fn is_clause(&self) -> (yes: bool)
        ensures
            yes == is_clause(*self),
        decreases self,
    {
        match self {
            Expr::BiOp(left, BiOp::Or, right) => left.is_clause() && right.is_clause(),
            _ => self.is_literal(),
        }
    }

    /// Whether the expression is in conjunctive normal form.
    pub fn is_cnf(&self) -> (yes: bool)
        ensures
            yes == in_cnf(*self),
        decreases self,
    {
        match self {
            Expr::BiOp(left, BiOp::And, right) => left.is_cnf() && right.is_cnf(),
            _ => self.is_clause(),
        }
    }

    /// Appends the way the expression is written out to `out`.
    fn write_text(&self, out: &mut String)
        ensures
            final(out)@ == old(out)@ + text_of(*self),
        decreases self,
    {
        match self {
            Expr::BiOp(left, BiOp::And, right) => {
                push_char(out, '(');
                left.write_text(out);
                out.append(" & ");
                right.write_text(out);
                push_char(out, ')');
            },
            Expr::BiOp(left, BiOp::Or, right) => {
                push_char(out, '(');
                left.write_text(out);
                out.append(" | ");
                right.write_text(out);
                push_char(out, ')');
            },
            Expr::Not(inner) => {
                out.append("!(");
                inner.write_text(out);
                push_char(out, ')');
            },
            Expr::Atom(Atom::Var(index)) => {
                push_decimal(out, *index as u128);
            },
            Expr::Atom(Atom::False) => {
                out.append("False");
            },
            Expr::Atom(Atom::True) => {
                out.append("True");
            },
        }
    }
}

impl From<Expr> for String {
    /// The way `value` is written out.
    fn from(value: Expr) -> (text: String)
        ensures
            text@ == text_of(value),
    {
        let mut text = String::new();
        value.write_text(&mut text);
        text
    }
}

impl FromSpecImpl<Expr> for String {
    /// The text is stated by [`text_of`], in the contract of `from`; no
    /// string is named here.
    open spec fn obeys_from_spec() -> bool {
        false
    }

    /// Not used: see [`Self::obeys_from_spec`].
    open spec fn from_spec(v: Expr) -> String {
        arbitrary()
    }
}

} // verus!
