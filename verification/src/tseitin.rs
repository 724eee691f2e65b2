//! Tseitin's transformation on written formulas, by numbered positions.
//!
//! Every connective of the formula gets a variable `EXTRA_VAR_<n>` that
//! stands for it, where `n` is found from the connective's place in the tree:
//! the root has 0, and a node with `n` has `n + 1` at its left or only
//! argument and `n + 2` at its right one. Brackets have no number of their
//! own. The numbers of two different connectives can coincide, so the result
//! constrains more than the formula does; [`crate::algorithm`] draws its
//! variables from a registry and does not.

use crate::grammar::grammar_bool::{Expr, Formula};
use crate::text::{decimal, push_decimal};
use vstd::pervasive::unreached;
use vstd::prelude::*;

verus! {

/// The negation of `f`.
pub open spec fn neg(f: Formula) -> Formula {
    Formula::Neg(Box::new(f))
}

/// The conjunction of `left` and `right`.
pub open spec fn conj(left: Formula, right: Formula) -> Formula {
    Formula::And(Box::new(left), Box::new(right))
}

/// The disjunction of `left` and `right`.
pub open spec fn disj(left: Formula, right: Formula) -> Formula {
    Formula::Or(Box::new(left), Box::new(right))
}

/// The variable that stands for the connective with the number `n`.
pub open spec fn extra_var(n: nat) -> Formula {
    Formula::Var("EXTRA_VAR_"@ + decimal(n))
}

/// The formula that an optional tree writes down, if there is a tree.
pub open spec fn formula_of(tree: Option<Expr>) -> Option<Formula> {
    match tree {
        Some(expr) => Some(expr@),
        None => None,
    }
}

/// The number of connectives on the longest path from the root of `f` down.
pub open spec fn height(f: Formula) -> nat
    decreases f,
{
    match f {
        Formula::Var(_) => 0,
        Formula::Neg(inner) => 1 + height(*inner),
        Formula::And(left, right) | Formula::Or(left, right) => 1 + if height(*left) >= height(
            *right,
        ) {
            height(*left)
        } else {
            height(*right)
        },
        Formula::Bracket(inner) => height(*inner),
    }
}

/// The conjunctive normal form of `c <=> a_op_b`, where `a_op_b` is one
/// connective applied to its arguments; `None` for a variable or a bracket.
pub open spec fn equivalence_cnf(c: Formula, a_op_b: Formula) -> Option<Formula> {
    match a_op_b {
        Formula::And(x, y) => Some(
            conj(disj(disj(neg(*x), neg(*y)), c), conj(disj(*x, neg(c)), disj(*y, neg(c)))),
        ),
        Formula::Or(x, y) => Some(
            conj(disj(disj(*x, *y), neg(c)), conj(disj(c, neg(*x)), disj(c, neg(*y)))),
        ),
        Formula::Neg(x) => Some(conj(disj(neg(*x), neg(c)), disj(*x, c))),
        _ => None,
    }
}

/// `base`, and with it `more` where there is any.
pub open spec fn conj_with(base: Formula, more: Option<Formula>) -> Formula {
    match more {
        Some(constraint) => conj(base, constraint),
        None => base,
    }
}

/// What the transformation makes of `f` when its root has the number
/// `var_count`: the variable or name that stands for `f`, and the constraints
/// that tie the variables of the connectives in `f` to their arguments, if
/// `f` has a connective.
pub open spec fn transformed(f: Formula, var_count: nat) -> (Formula, Option<Formula>)
    decreases f,
{
    match f {
        Formula::Var(_) => (f, None),
        Formula::Bracket(inner) => transformed(*inner, var_count),
        Formula::Neg(inner) => {
            let (stand_in, constraints) = transformed(*inner, var_count + 1);
            let own = equivalence_cnf(extra_var(var_count), neg(stand_in))->0;
            (extra_var(var_count), Some(conj_with(own, constraints)))
        },
        Formula::And(left, right) => {
            let (stand_in_left, constraints_left) = transformed(*left, var_count + 1);
            let (stand_in_right, constraints_right) = transformed(*right, var_count + 2);
            let own = equivalence_cnf(extra_var(var_count), conj(stand_in_left, stand_in_right))->0;
            (
                extra_var(var_count),
                Some(conj_with(conj_with(own, constraints_left), constraints_right)),
            )
        },
        Formula::Or(left, right) => {
            let (stand_in_left, constraints_left) = transformed(*left, var_count + 1);
            let (stand_in_right, constraints_right) = transformed(*right, var_count + 2);
            let own = equivalence_cnf(extra_var(var_count), disj(stand_in_left, stand_in_right))->0;
            (
                extra_var(var_count),
                Some(conj_with(conj_with(own, constraints_left), constraints_right)),
            )
        },
    }
}

/// The constraints that tie a variable to each connective of `expr_input`,
/// or an error where the formula has no connective.
pub fn tseitin_encoder(expr_input: Expr) -> (result: Result<Expr, String>)
    requires
        2 * height(expr_input@) <= usize::MAX,
    ensures
        match result {
            Ok(constraints) => transformed(expr_input@, 0).1 == Some(constraints@),
            Err(message) => transformed(expr_input@, 0).1 is None && message@
                == "Tseitin Expression could not be created"@,
        },
{
    let (_, optional_tseitin_expr) = process_expr(expr_input, 0);
    match optional_tseitin_expr {
        Some(constraints) => Ok(constraints),
        None => Err("Tseitin Expression could not be created".to_owned()),
    }
}

/// `base`, and with it `more` where there is any.
fn and_also(base: Expr, more: Option<Expr>) -> (both: Expr)
    ensures
        both@ == conj_with(base@, formula_of(more)),
{
    match more {
        Some(constraint) => and_of(base, constraint),
        None => base,
    }
}

/// What the transformation makes of `expr` when its root has the number
/// `var_count`: what stands for `expr`, and the constraints, if `expr` has a
/// connective. The numbers down the tree have to fit into the machine's.
fn process_expr(expr: Expr, var_count: usize) -> (result: (Expr, Option<Expr>))
    requires
        var_count + 2 * height(expr@) <= usize::MAX,
    ensures
        result.0@ == transformed(expr@, var_count as nat).0,
        formula_of(result.1) == transformed(expr@, var_count as nat).1,
    decreases expr,
{
    let mut var_name = "EXTRA_VAR_".to_owned();
    push_decimal(&mut var_name, var_count as u128);
    let expr_var = Expr::Var(var_name);
    match expr {
        Expr::And(expr_left, _, expr_right) => {
            let (extra_var_left, optional_expr_left) = process_expr(*expr_left, var_count + 1);
            let (extra_var_right, optional_expr_right) = process_expr(*expr_right, var_count + 2);
            let own = equivalent_expr_cnf(&expr_var, &and_of(extra_var_left, extra_var_right));
            let tseitin_expr = match own {
                Some(own) => and_also(and_also(own, optional_expr_left), optional_expr_right),
                None => unreached(),
            };
            (expr_var, Some(tseitin_expr))
        },
        Expr::Or(expr_left, _, expr_right) => {
            let (extra_var_left, optional_expr_left) = process_expr(*expr_left, var_count + 1);
            let (extra_var_right, optional_expr_right) = process_expr(*expr_right, var_count + 2);
            let own = equivalent_expr_cnf(&expr_var, &or_of(extra_var_left, extra_var_right));
            let tseitin_expr = match own {
                Some(own) => and_also(and_also(own, optional_expr_left), optional_expr_right),
                None => unreached(),
            };
            (expr_var, Some(tseitin_expr))
        },
        Expr::Bracket(_, expr_mid, _) => process_expr(*expr_mid, var_count),
        Expr::Neg(_, inner) => {
            let (extra_var, optional_expr) = process_expr(*inner, var_count + 1);
            let own = equivalent_expr_cnf(&expr_var, &neg_of(extra_var));
            let tseitin_expr = match own {
                Some(own) => and_also(own, optional_expr),
                None => unreached(),
            };
            (expr_var, Some(tseitin_expr))
        },
        Expr::Var(name) => (Expr::Var(name), None),
    }
}

/// The conjunctive normal form of `c <=> a_op_b`, where `a_op_b` is one
/// connective applied to its arguments; `None` for a variable or a bracket.
fn equivalent_expr_cnf(c: &Expr, a_op_b: &Expr) -> (result: Option<Expr>)
    ensures
        formula_of(result) == equivalence_cnf(c@, a_op_b@),
{
    match a_op_b {
        Expr::And(x, _, y) => {
            let x: &Expr = &**x;
            let y: &Expr = &**y;
            Some(
                and_of(
                    or_of(or_of(neg_of(x.clone()), neg_of(y.clone())), c.clone()),
                    and_of(
                        or_of(x.clone(), neg_of(c.clone())),
                        or_of(y.clone(), neg_of(c.clone())),
                    ),
                ),
            )
        },
        Expr::Or(x, _, y) => {
            let x: &Expr = &**x;
            let y: &Expr = &**y;
            Some(
                and_of(
                    or_of(or_of(x.clone(), y.clone()), neg_of(c.clone())),
                    and_of(
                        or_of(c.clone(), neg_of(x.clone())),
                        or_of(c.clone(), neg_of(y.clone())),
                    ),
                ),
            )
        },
        Expr::Neg(_, x) => {
            let x: &Expr = &**x;
            Some(and_of(or_of(neg_of(x.clone()), neg_of(c.clone())), or_of(x.clone(), c.clone())))
        },
        _ => None,
    }
}

/// The negation of `inner`.
fn neg_of(inner: Expr) -> (tree: Expr)
    ensures
        tree@ == neg(inner@),
{
    Expr::Neg((), Box::new(inner))
}

/// The conjunction of `left` and `right`.
fn and_of(left: Expr, right: Expr) -> (tree: Expr)
    ensures
        tree@ == conj(left@, right@),
{
    Expr::And(Box::new(left), (), Box::new(right))
}

/// The disjunction of `left` and `right`.
fn or_of(left: Expr, right: Expr) -> (tree: Expr)
    ensures
        tree@ == disj(left@, right@),
{
    Expr::Or(Box::new(left), (), Box::new(right))
}

/// The truth value of `f` where `truth` gives that of each variable by name.
pub open spec fn holds(f: Formula, truth: spec_fn(Seq<char>) -> bool) -> bool
    decreases f,
{
    match f {
        Formula::Var(name) => truth(name),
        Formula::Neg(inner) => !holds(*inner, truth),
        Formula::And(left, right) => holds(*left, truth) && holds(*right, truth),
        Formula::Or(left, right) => holds(*left, truth) || holds(*right, truth),
        Formula::Bracket(inner) => holds(*inner, truth),
    }
}

/// The constraints for one connective hold exactly where its variable has the
/// truth value of the connective applied to its arguments.
pub proof fn lemma_equivalence_cnf_holds(
    c: Formula,
    a_op_b: Formula,
    truth: spec_fn(Seq<char>) -> bool,
)
    requires
        equivalence_cnf(c, a_op_b) is Some,
    ensures
        holds(equivalence_cnf(c, a_op_b)->0, truth) <==> (holds(c, truth) <==> holds(
            a_op_b,
            truth,
        )),
{
    reveal_with_fuel(holds, 4);
}

/// Where the constraints that the transformation makes of `f` hold, the
/// variable that stands for `f` has the truth value of `f`.
pub proof fn lemma_transformed_stands_for(
    f: Formula,
    var_count: nat,
    truth: spec_fn(Seq<char>) -> bool,
)
    requires
        transformed(f, var_count).1 matches Some(constraints) ==> holds(constraints, truth),
    ensures
        holds(transformed(f, var_count).0, truth) == holds(f, truth),
    decreases f,
{
    reveal_with_fuel(holds, 3);
    match f {
        Formula::Var(_) => {},
        Formula::Bracket(inner) => {
            lemma_transformed_stands_for(*inner, var_count, truth);
        },
        Formula::Neg(inner) => {
            let stand_in = transformed(*inner, var_count + 1).0;
            lemma_equivalence_cnf_holds(extra_var(var_count), neg(stand_in), truth);
            lemma_transformed_stands_for(*inner, var_count + 1, truth);
        },
        Formula::And(left, right) => {
            let stand_in_left = transformed(*left, var_count + 1).0;
            let stand_in_right = transformed(*right, var_count + 2).0;
            lemma_equivalence_cnf_holds(
                extra_var(var_count),
                conj(stand_in_left, stand_in_right),
                truth,
            );
            lemma_transformed_stands_for(*left, var_count + 1, truth);
            lemma_transformed_stands_for(*right, var_count + 2, truth);
        },
        Formula::Or(left, right) => {
            let stand_in_left = transformed(*left, var_count + 1).0;
            let stand_in_right = transformed(*right, var_count + 2).0;
            lemma_equivalence_cnf_holds(
                extra_var(var_count),
                disj(stand_in_left, stand_in_right),
                truth,
            );
            lemma_transformed_stands_for(*left, var_count + 1, truth);
            lemma_transformed_stands_for(*right, var_count + 2, truth);
        },
    }
}

} // verus!
