//! What formulas and clauses mean, and why the transformation keeps it.
//!
//! An assignment gives every variable, by its index, a truth value. The
//! clauses of [`crate::algorithm::encoding`] hold under an assignment only
//! if the expression is true under it, and every assignment under which the
//! expression is true can be changed on the extra variables alone so that
//! the clauses hold.

use crate::algorithm::{
    and_clauses, aux_count, clauses_of, encoding, false_clauses, not_clauses, or_clauses,
    representative, true_clauses,
};
use crate::cnf::{are_clauses_of, is_clause_of, is_literal_of};
use crate::expr::{lemma_vars_within_more, vars_within, BiOp, Expr};
use crate::types::Atom;
use vstd::prelude::*;

verus! {

/// The truth value of `e` under `truth`.
pub open spec fn value(e: Expr, truth: spec_fn(int) -> bool) -> bool
    decreases e,
{
    match e {
        Expr::Atom(Atom::Var(x)) => truth(x as int),
        Expr::Atom(Atom::True) => true,
        Expr::Atom(Atom::False) => false,
        Expr::Not(inner) => !value(*inner, truth),
        Expr::BiOp(left, BiOp::And, right) => value(*left, truth) && value(*right, truth),
        Expr::BiOp(left, BiOp::Or, right) => value(*left, truth) || value(*right, truth),
    }
}

/// Whether `literal` is true under `truth`: a positive literal where its
/// variable is true, a negative one where its variable is false.
pub open spec fn literal_holds(literal: int, truth: spec_fn(int) -> bool) -> bool {
    if literal > 0 {
        truth(literal)
    } else {
        !truth(-literal)
    }
}

/// Whether `clause` holds under `truth`: one of its literals is true.
pub open spec fn clause_holds(clause: Seq<int>, truth: spec_fn(int) -> bool) -> bool {
    exists|i: int| 0 <= i < clause.len() && literal_holds(#[trigger] clause[i], truth)
}

/// Whether all of `clauses` hold under `truth`.
pub open spec fn clauses_hold(clauses: Seq<Seq<int>>, truth: spec_fn(int) -> bool) -> bool {
    forall|k: int| 0 <= k < clauses.len() ==> clause_holds(#[trigger] clauses[k], truth)
}

/// Whether `one` and `other` give the same truth value to each of the
/// variables `1..=n_var`.
pub open spec fn agree(one: spec_fn(int) -> bool, other: spec_fn(int) -> bool, n_var: nat) -> bool {
    forall|v: int| 1 <= v <= n_var ==> #[trigger] one(v) == other(v)
}

/// `truth`, but with the value `b` for the variable `c`.
pub open spec fn with_value(truth: spec_fn(int) -> bool, c: int, b: bool) -> spec_fn(int) -> bool {
    |v: int|
        if v == c {
            b
        } else {
            truth(v)
        }
}

/// `truth`, changed on the extra variables of the transformation of `e` so
/// that each of them has the truth value of what it stands for.
pub open spec fn extended(e: Expr, n_var: nat, truth: spec_fn(int) -> bool) -> spec_fn(int) -> bool
    decreases e,
{
    let c = representative(e, n_var);
    match e {
        Expr::Atom(Atom::Var(_)) => truth,
        Expr::Atom(_) => with_value(truth, c, value(e, truth)),
        Expr::Not(inner) => with_value(extended(*inner, n_var, truth), c, value(e, truth)),
        Expr::BiOp(left, _, right) => with_value(
            extended(*right, n_var + aux_count(*left), extended(*left, n_var, truth)),
            c,
            value(e, truth),
        ),
    }
}

/// The truth value of an expression rests on its own variables alone.
pub proof fn lemma_value_agree(
    e: Expr,
    n_var: nat,
    one: spec_fn(int) -> bool,
    other: spec_fn(int) -> bool,
)
    requires
        vars_within(e, n_var),
        agree(one, other, n_var),
    ensures
        value(e, one) == value(e, other),
    decreases e,
{
    match e {
        Expr::Atom(Atom::Var(x)) => {
        },
        Expr::Atom(_) => {},
        Expr::Not(inner) => {
            lemma_value_agree(*inner, n_var, one, other);
        },
        Expr::BiOp(left, _, right) => {
            lemma_value_agree(*left, n_var, one, other);
            lemma_value_agree(*right, n_var, one, other);
        },
    }
}

/// Whether clauses hold rests on the variables that they speak of alone.
pub proof fn lemma_clauses_agree(
    clauses: Seq<Seq<int>>,
    n_var: nat,
    one: spec_fn(int) -> bool,
    other: spec_fn(int) -> bool,
)
    requires
        are_clauses_of(clauses, n_var),
        agree(one, other, n_var),
    ensures
        clauses_hold(clauses, one) == clauses_hold(clauses, other),
{
    if clauses_hold(clauses, one) {
        lemma_clauses_agree_one_way(clauses, n_var, one, other);
    }
    if clauses_hold(clauses, other) {
        assert(agree(other, one, n_var)) by {
            assert forall|v: int| 1 <= v <= n_var implies #[trigger] other(v) == one(v) by {
                assert(one(v) == other(v));
            }
        }
        lemma_clauses_agree_one_way(clauses, n_var, other, one);
    }
}

/// One direction of [`lemma_clauses_agree`].
proof fn lemma_clauses_agree_one_way(
    clauses: Seq<Seq<int>>,
    n_var: nat,
    one: spec_fn(int) -> bool,
    other: spec_fn(int) -> bool,
)
    requires
        are_clauses_of(clauses, n_var),
        agree(one, other, n_var),
        clauses_hold(clauses, one),
    ensures
        clauses_hold(clauses, other),
{
    assert forall|k: int| 0 <= k < clauses.len() implies clause_holds(
        #[trigger] clauses[k],
        other,
    ) by {
        let clause = clauses[k];
        assert(is_clause_of(clause, n_var));
        assert(clause_holds(clause, one));
        let i = choose|i: int| 0 <= i < clause.len() && literal_holds(#[trigger] clause[i], one);
        assert(is_literal_of(clause[i], n_var));
        if clause[i] > 0 {
            assert(one(clause[i]) == other(clause[i]));
        } else {
            assert(one(-clause[i]) == other(-clause[i]));
        }
        assert(literal_holds(clause[i], other));
    }
}

/// Clauses put together hold where each part holds.
pub proof fn lemma_clauses_hold_concat(
    first: Seq<Seq<int>>,
    second: Seq<Seq<int>>,
    truth: spec_fn(int) -> bool,
)
    ensures
        clauses_hold(first + second, truth) == (clauses_hold(first, truth) && clauses_hold(
            second,
            truth,
        )),
{
    let both = first + second;
    if clauses_hold(both, truth) {
        assert forall|k: int| 0 <= k < first.len() implies clause_holds(
            #[trigger] first[k],
            truth,
        ) by {
            assert(both[k] == first[k]);
        }
        assert forall|k: int| 0 <= k < second.len() implies clause_holds(
            #[trigger] second[k],
            truth,
        ) by {
            assert(both[first.len() + k] == second[k]);
        }
    }
    if clauses_hold(first, truth) && clauses_hold(second, truth) {
        assert forall|k: int| 0 <= k < both.len() implies clause_holds(
            #[trigger] both[k],
            truth,
        ) by {
            if k < first.len() {
                assert(both[k] == first[k]);
            } else {
                assert(both[k] == second[k - first.len()]);
            }
        }
    }
}

/// A literal and its negative have opposite truth values.
pub proof fn lemma_negative_literal(literal: int, truth: spec_fn(int) -> bool)
    requires
        literal != 0,
    ensures
        literal_holds(-literal, truth) == !literal_holds(literal, truth),
{
}

/// A clause of one literal holds where the literal is true.
pub proof fn lemma_clause_of_one(x: int, truth: spec_fn(int) -> bool)
    ensures
        clause_holds(seq![x], truth) == literal_holds(x, truth),
{
    let clause = seq![x];
    if literal_holds(x, truth) {
        assert(literal_holds(clause[0], truth));
    }
}

/// A clause of two literals holds where one of them is true.
pub proof fn lemma_clause_of_two(x: int, y: int, truth: spec_fn(int) -> bool)
    ensures
        clause_holds(seq![x, y], truth) == (literal_holds(x, truth) || literal_holds(y, truth)),
{
    let clause = seq![x, y];
    if literal_holds(x, truth) {
        assert(literal_holds(clause[0], truth));
    }
    if literal_holds(y, truth) {
        assert(literal_holds(clause[1], truth));
    }
}

/// A clause of three literals holds where one of them is true.
pub proof fn lemma_clause_of_three(x: int, y: int, z: int, truth: spec_fn(int) -> bool)
    ensures
        clause_holds(seq![x, y, z], truth) == (literal_holds(x, truth) || literal_holds(y, truth)
            || literal_holds(z, truth)),
{
    let clause = seq![x, y, z];
    if literal_holds(x, truth) {
        assert(literal_holds(clause[0], truth));
    }
    if literal_holds(y, truth) {
        assert(literal_holds(clause[1], truth));
    }
    if literal_holds(z, truth) {
        assert(literal_holds(clause[2], truth));
    }
}

/// The clauses of `c <=> a & b` hold exactly where `c` has the truth value
/// of `a & b`.
pub proof fn lemma_and_clauses(c: int, a: int, b: int, truth: spec_fn(int) -> bool)
    requires
        c != 0,
        a != 0,
        b != 0,
    ensures
        clauses_hold(and_clauses(c, a, b), truth) == (literal_holds(c, truth) == (literal_holds(
            a,
            truth,
        ) && literal_holds(b, truth))),
{
    lemma_clause_of_two(-c, a, truth);
    lemma_clause_of_two(-c, b, truth);
    lemma_clause_of_three(c, -a, -b, truth);
    lemma_negative_literal(a, truth);
    lemma_negative_literal(b, truth);
    lemma_negative_literal(c, truth);
}

/// The clauses of `c <=> a | b` hold exactly where `c` has the truth value
/// of `a | b`.
pub proof fn lemma_or_clauses(c: int, a: int, b: int, truth: spec_fn(int) -> bool)
    requires
        c != 0,
        a != 0,
        b != 0,
    ensures
        clauses_hold(or_clauses(c, a, b), truth) == (literal_holds(c, truth) == (literal_holds(
            a,
            truth,
        ) || literal_holds(b, truth))),
{
    lemma_clause_of_two(c, -a, truth);
    lemma_clause_of_two(c, -b, truth);
    lemma_clause_of_three(-c, a, b, truth);
    lemma_negative_literal(a, truth);
    lemma_negative_literal(b, truth);
    lemma_negative_literal(c, truth);
}

/// The clauses of `c <=> !a` hold exactly where `c` has the truth value of
/// `!a`.
pub proof fn lemma_not_clauses(c: int, a: int, truth: spec_fn(int) -> bool)
    requires
        c != 0,
        a != 0,
    ensures
        clauses_hold(not_clauses(c, a), truth) == (literal_holds(c, truth) == !literal_holds(
            a,
            truth,
        )),
{
    lemma_clause_of_two(-c, -a, truth);
    lemma_clause_of_two(c, a, truth);
    lemma_negative_literal(a, truth);
    lemma_negative_literal(c, truth);
}

/// The clause of `c <=> true` holds exactly where `c` is true.
pub proof fn lemma_true_clauses(c: int, truth: spec_fn(int) -> bool)
    requires
        c != 0,
    ensures
        clauses_hold(true_clauses(c), truth) == literal_holds(c, truth),
{
    let clauses = true_clauses(c);
    lemma_clause_of_one(c, truth);
    assert(clauses[0] == seq![c]);
}

/// The clause of `c <=> false` holds exactly where `c` is false.
pub proof fn lemma_false_clauses(c: int, truth: spec_fn(int) -> bool)
    requires
        c != 0,
    ensures
        clauses_hold(false_clauses(c), truth) == !literal_holds(c, truth),
{
    let clauses = false_clauses(c);
    lemma_clause_of_one(-c, truth);
    lemma_negative_literal(c, truth);
    assert(clauses[0] == seq![-c]);
}

/// Under an assignment under which the clauses emitted for an expression
/// hold, the literal that stands for the expression has the truth value of
/// the expression.
pub proof fn lemma_clauses_fix_representative(e: Expr, n_var: nat, truth: spec_fn(int) -> bool)
    requires
        vars_within(e, n_var),
        clauses_hold(clauses_of(e, n_var), truth),
    ensures
        literal_holds(representative(e, n_var), truth) == value(e, truth),
    decreases e,
{
    let c = representative(e, n_var);
    match e {
        Expr::Atom(Atom::Var(_)) => {},
        Expr::Atom(Atom::True) => {
            lemma_true_clauses(c, truth);
        },
        Expr::Atom(Atom::False) => {
            lemma_false_clauses(c, truth);
        },
        Expr::Not(inner) => {
            let a = representative(*inner, n_var);
            crate::algorithm::lemma_representative_is_literal(*inner, n_var);
            lemma_clauses_hold_concat(clauses_of(*inner, n_var), not_clauses(c, a), truth);
            lemma_clauses_fix_representative(*inner, n_var, truth);
            lemma_not_clauses(c, a, truth);
        },
        Expr::BiOp(left, op, right) => {
            let between = n_var + aux_count(*left);
            let a = representative(*left, n_var);
            let b = representative(*right, between);
            lemma_vars_within_more(*right, n_var, between);
            crate::algorithm::lemma_representative_is_literal(*left, n_var);
            crate::algorithm::lemma_representative_is_literal(*right, between);
            let own = match op {
                BiOp::And => and_clauses(c, a, b),
                BiOp::Or => or_clauses(c, a, b),
            };
            lemma_clauses_hold_concat(
                clauses_of(*left, n_var) + clauses_of(*right, between),
                own,
                truth,
            );
            lemma_clauses_hold_concat(clauses_of(*left, n_var), clauses_of(*right, between), truth);
            lemma_clauses_fix_representative(*left, n_var, truth);
            lemma_clauses_fix_representative(*right, between, truth);
            lemma_and_clauses(c, a, b, truth);
            lemma_or_clauses(c, a, b, truth);
        },
    }
}

/// An expression is true under every assignment under which the clauses of
/// its transformation hold.
pub proof fn lemma_encoding_sound(e: Expr, n_var: nat, truth: spec_fn(int) -> bool)
    requires
        vars_within(e, n_var),
        clauses_hold(encoding(e, n_var), truth),
    ensures
        value(e, truth),
{
    let root = seq![seq![representative(e, n_var)]];
    assert(encoding(e, n_var) == clauses_of(e, n_var) + root);
    lemma_clauses_hold_concat(clauses_of(e, n_var), root, truth);
    lemma_clauses_fix_representative(e, n_var, truth);
    lemma_clause_of_one(representative(e, n_var), truth);
    assert(root[0] == seq![representative(e, n_var)]);
}

/// The assignment that is changed for the transformation of an expression
/// differs from the one it was made from on the extra variables of that
/// expression alone.
pub proof fn lemma_extended_frame(e: Expr, n_var: nat, truth: spec_fn(int) -> bool, v: int)
    requires
        v <= n_var || v > n_var + aux_count(e),
    ensures
        extended(e, n_var, truth)(v) == truth(v),
    decreases e,
{
    match e {
        Expr::Atom(_) => {},
        Expr::Not(inner) => {
            lemma_extended_frame(*inner, n_var, truth, v);
        },
        Expr::BiOp(left, _, right) => {
            let between = n_var + aux_count(*left);
            lemma_extended_frame(*left, n_var, truth, v);
            lemma_extended_frame(*right, between, extended(*left, n_var, truth), v);
        },
    }
}

/// Under the assignment that is changed for the transformation of an
/// expression, the clauses emitted for the expression hold, and the literal
/// that stands for the expression has the truth value that the expression
/// has under the assignment it was made from.
pub proof fn lemma_extended_models(e: Expr, n_var: nat, truth: spec_fn(int) -> bool)
    requires
        vars_within(e, n_var),
    ensures
        clauses_hold(clauses_of(e, n_var), extended(e, n_var, truth)),
        literal_holds(representative(e, n_var), extended(e, n_var, truth)) == value(e, truth),
        agree(truth, extended(e, n_var, truth), n_var),
    decreases e,
{
    let c = representative(e, n_var);
    let last = extended(e, n_var, truth);
    assert forall|v: int| 1 <= v <= n_var implies #[trigger] truth(v) == last(v) by {
        lemma_extended_frame(e, n_var, truth, v);
    }
    match e {
        Expr::Atom(Atom::Var(_)) => {},
        Expr::Atom(Atom::True) => {
            lemma_true_clauses(c, last);
        },
        Expr::Atom(Atom::False) => {
            lemma_false_clauses(c, last);
        },
        Expr::Not(inner) => {
            let a = representative(*inner, n_var);
            let below = extended(*inner, n_var, truth);
            crate::algorithm::lemma_representative_is_literal(*inner, n_var);
            lemma_extended_models(*inner, n_var, truth);
            crate::algorithm::lemma_clauses_of_within(*inner, n_var);
            assert(agree(below, last, n_var + aux_count(*inner)));
            lemma_clauses_agree(clauses_of(*inner, n_var), n_var + aux_count(*inner), below, last);
            assert(literal_holds(a, last) == literal_holds(a, below));
            lemma_not_clauses(c, a, last);
            lemma_clauses_hold_concat(clauses_of(*inner, n_var), not_clauses(c, a), last);
        },
        Expr::BiOp(left, op, right) => {
            let between = n_var + aux_count(*left);
            let n_args = between + aux_count(*right);
            let a = representative(*left, n_var);
            let b = representative(*right, between);
            let first = extended(*left, n_var, truth);
            let second = extended(*right, between, first);
            lemma_vars_within_more(*right, n_var, between);
            crate::algorithm::lemma_representative_is_literal(*left, n_var);
            crate::algorithm::lemma_representative_is_literal(*right, between);
            lemma_extended_models(*left, n_var, truth);
            lemma_extended_models(*right, between, first);
            crate::algorithm::lemma_clauses_of_within(*left, n_var);
            crate::algorithm::lemma_clauses_of_within(*right, between);
            // The value of the right argument is the same under the first
            // changed assignment as under the one given.
            lemma_value_agree(*right, n_var, truth, first);
            // What holds of the left argument still holds after the changes
            // for the right one.
            assert(agree(first, second, between));
            assert(agree(first, last, between)) by {
                assert forall|v: int| 1 <= v <= between implies #[trigger] first(v) == last(v) by {
                    assert(first(v) == second(v));
                }
            }
            assert(agree(second, last, n_args));
            lemma_clauses_agree(clauses_of(*left, n_var), between, first, last);
            lemma_clauses_agree(clauses_of(*right, between), n_args, second, last);
            assert(literal_holds(a, last) == literal_holds(a, first));
            assert(literal_holds(b, last) == literal_holds(b, second));
            let own = match op {
                BiOp::And => and_clauses(c, a, b),
                BiOp::Or => or_clauses(c, a, b),
            };
            lemma_and_clauses(c, a, b, last);
            lemma_or_clauses(c, a, b, last);
            lemma_clauses_hold_concat(clauses_of(*left, n_var), clauses_of(*right, between), last);
            lemma_clauses_hold_concat(
                clauses_of(*left, n_var) + clauses_of(*right, between),
                own,
                last,
            );
        },
    }
}

/// An assignment under which an expression is true can be changed on the
/// extra variables alone so that the clauses of the transformation hold.
pub proof fn lemma_encoding_complete(e: Expr, n_var: nat, truth: spec_fn(int) -> bool)
    requires
        vars_within(e, n_var),
        value(e, truth),
    ensures
        clauses_hold(encoding(e, n_var), extended(e, n_var, truth)),
        agree(truth, extended(e, n_var, truth), n_var),
{
    let last = extended(e, n_var, truth);
    let root = seq![seq![representative(e, n_var)]];
    lemma_extended_models(e, n_var, truth);
    lemma_clause_of_one(representative(e, n_var), last);
    lemma_clauses_hold_concat(clauses_of(e, n_var), root, last);
}

/// Whether some assignment makes `e` true.
pub open spec fn satisfiable(e: Expr) -> bool {
    exists|truth: spec_fn(int) -> bool| #[trigger] value(e, truth)
}

/// Whether all of `clauses` hold under some assignment.
pub open spec fn clauses_satisfiable(clauses: Seq<Seq<int>>) -> bool {
    exists|truth: spec_fn(int) -> bool| #[trigger] clauses_hold(clauses, truth)
}

/// The clauses of the transformation of an expression can be satisfied
/// exactly where the expression can.
pub proof fn lemma_encoding_equisatisfiable(e: Expr, n_var: nat)
    requires
        vars_within(e, n_var),
    ensures
        clauses_satisfiable(encoding(e, n_var)) == satisfiable(e),
{
    if clauses_satisfiable(encoding(e, n_var)) {
        let truth = choose|truth: spec_fn(int) -> bool| #[trigger]
            clauses_hold(encoding(e, n_var), truth);
        lemma_encoding_sound(e, n_var, truth);
    }
    if satisfiable(e) {
        let truth = choose|truth: spec_fn(int) -> bool| #[trigger] value(e, truth);
        lemma_encoding_complete(e, n_var, truth);
    }
}

} // verus!
