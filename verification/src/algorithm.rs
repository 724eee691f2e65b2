//! Tseitin's transformation: from an expression tree to clauses that can be
//! satisfied exactly where the expression can.

use crate::cnf::{
    are_clauses_of, is_clause_of, is_literal_of, lemma_clauses_over_concat,
    lemma_clauses_over_more, lemma_mentions_concat, literals, mentions, referenced, Cnf,
};
use crate::expr::{lemma_vars_within_more, occurs, vars_within, BiOp, Expr};
use crate::semantics::{
    agree, clauses_hold, clauses_satisfiable, extended, lemma_encoding_complete,
    lemma_encoding_equisatisfiable, lemma_encoding_sound, satisfiable, value,
};
use crate::types::Atom;
use crate::var::{lemma_with_extras_add, with_extra, with_extras, VarStore};
use vstd::prelude::*;

verus! {

/// The number of variables that the transformation allocates for `e`: one
/// for each connective and one for each constant.
pub open spec fn aux_count(e: Expr) -> nat
    decreases e,
{
    match e {
        Expr::Atom(Atom::Var(_)) => 0,
        Expr::Atom(_) => 1,
        Expr::Not(inner) => aux_count(*inner) + 1,
        Expr::BiOp(left, _, right) => aux_count(*left) + aux_count(*right) + 1,
    }
}

/// The clauses of `c <=> a & b`.
pub open spec fn and_clauses(c: int, a: int, b: int) -> Seq<Seq<int>> {
    seq![seq![-c, a], seq![-c, b], seq![c, -a, -b]]
}

/// The clauses of `c <=> a | b`.
pub open spec fn or_clauses(c: int, a: int, b: int) -> Seq<Seq<int>> {
    seq![seq![c, -a], seq![c, -b], seq![-c, a, b]]
}

/// The clauses of `c <=> !a`.
pub open spec fn not_clauses(c: int, a: int) -> Seq<Seq<int>> {
    seq![seq![-c, -a], seq![c, a]]
}

/// The clause of `c <=> true`.
pub open spec fn true_clauses(c: int) -> Seq<Seq<int>> {
    seq![seq![c]]
}

/// The clause of `c <=> false`.
pub open spec fn false_clauses(c: int) -> Seq<Seq<int>> {
    seq![seq![-c]]
}

/// The literal that stands for `e` where `n_var` variables are allocated
/// before the transformation of `e`: a variable stands for itself, and
/// anything else gets the variable allocated last for it, after those for its
/// arguments.
pub open spec fn representative(e: Expr, n_var: nat) -> int {
    match e {
        Expr::Atom(Atom::Var(x)) => x as int,
        _ => (n_var + aux_count(e)) as int,
    }
}

/// The clauses that the transformation emits for `e` where `n_var` variables
/// are allocated before: those for the left argument, those for the right
/// one, then those that tie the variable of `e` to the literals that stand
/// for the arguments.
pub open spec fn clauses_of(e: Expr, n_var: nat) -> Seq<Seq<int>>
    decreases e,
{
    let c = representative(e, n_var);
    match e {
        Expr::Atom(Atom::Var(_)) => Seq::empty(),
        Expr::Atom(Atom::True) => true_clauses(c),
        Expr::Atom(Atom::False) => false_clauses(c),
        Expr::Not(inner) => clauses_of(*inner, n_var) + not_clauses(
            c,
            representative(*inner, n_var),
        ),
        Expr::BiOp(left, op, right) => {
            let between = n_var + aux_count(*left);
            let a = representative(*left, n_var);
            let b = representative(*right, between);
            clauses_of(*left, n_var) + clauses_of(*right, between) + match op {
                BiOp::And => and_clauses(c, a, b),
                BiOp::Or => or_clauses(c, a, b),
            }
        },
    }
}

/// The clauses of the whole transformation of `e`: those emitted for `e`,
/// and last the clause that asserts the literal that stands for `e`.
pub open spec fn encoding(e: Expr, n_var: nat) -> Seq<Seq<int>> {
    clauses_of(e, n_var).push(seq![representative(e, n_var)])
}

/// What is left of `room` extra variables after those for `expr`, where
/// `expr` is an expression over `1..=n_var` and `room` holds them all.
fn room_after(expr: &Expr, n_var: usize, room: usize) -> (left: Option<usize>)
    ensures
        match left {
            Some(left) => vars_within(*expr, n_var as nat) && aux_count(*expr) + left == room,
            None => !vars_within(*expr, n_var as nat) || aux_count(*expr) > room,
        },
    decreases expr,
{
    let after_arguments = match expr {
        Expr::Atom(Atom::Var(x)) => {
            return if 1 <= *x && *x <= n_var {
                Some(room)
            } else {
                None
            };
        },
        Expr::Atom(_) => Some(room),
        Expr::Not(inner) => room_after(inner, n_var, room),
        Expr::BiOp(left, _, right) => match room_after(left, n_var, room) {
            Some(after_left) => room_after(right, n_var, after_left),
            None => None,
        },
    };
    match after_arguments {
        Some(left) => if left >= 1 {
            Some(left - 1)
        } else {
            None
        },
        None => None,
    }
}

/// Whether [`tseitin_encode`] can take `expr` with `var_store`: the registry
/// holds every variable of the expression, and has room for the extra ones
/// within the numbers that a literal can hold.
pub fn encodable(expr: &Expr, var_store: &VarStore) -> (yes: bool)
    ensures
        yes == (vars_within(*expr, var_store@.len()) && var_store@.len() + aux_count(*expr)
            <= i32::MAX),
{
    let n_var = var_store.n_var();
    let limit: usize = i32::MAX as usize;
    if n_var > limit {
        false
    } else {
        room_after(expr, n_var, limit - n_var).is_some()
    }
}

/// The transformation of `expr_input` over the variables of `var_store`,
/// which have to include those of the expression; the extra variables, one
/// for each connective and each constant, have to fit into the numbers that a
/// literal can hold ([`encodable`] tests both). The clauses can be satisfied
/// exactly where the expression can: under every assignment under which they
/// hold the expression is true, and every assignment under which the
/// expression is true can be changed on the extra variables alone so that
/// they hold. No clause speaks of a variable that the registry does not hold
/// in the end.
pub fn tseitin_encode(expr_input: &Expr, var_store: VarStore) -> (cnf: Cnf)
    requires
        vars_within(*expr_input, var_store@.len()),
        var_store@.len() + aux_count(*expr_input) <= i32::MAX,
    ensures
        cnf@.clauses == encoding(*expr_input, var_store@.len()),
        cnf@.names == with_extras(var_store@, aux_count(*expr_input)),
        cnf@.names.len() == var_store@.len() + aux_count(*expr_input),
        cnf.wf(),
        clauses_satisfiable(cnf@.clauses) == satisfiable(*expr_input),
        forall|truth: spec_fn(int) -> bool| #[trigger]
            clauses_hold(cnf@.clauses, truth) ==> value(*expr_input, truth),
        forall|truth: spec_fn(int) -> bool| #[trigger]
            value(*expr_input, truth) ==> {
                let changed = extended(*expr_input, var_store@.len(), truth);
                clauses_hold(cnf@.clauses, changed) && agree(truth, changed, var_store@.len())
            },
{
    proof {
        assert forall|truth: spec_fn(int) -> bool| #[trigger]
            value(*expr_input, truth) implies {
            let changed = extended(*expr_input, var_store@.len(), truth);
            clauses_hold(encoding(*expr_input, var_store@.len()), changed) && agree(
                truth,
                changed,
                var_store@.len(),
            )
        } by {
            lemma_encoding_complete(*expr_input, var_store@.len(), truth);
        }
        lemma_encoding_equisatisfiable(*expr_input, var_store@.len());
        assert forall|truth: spec_fn(int) -> bool| #[trigger]
            clauses_hold(encoding(*expr_input, var_store@.len()), truth) implies value(
            *expr_input,
            truth,
        ) by {
            lemma_encoding_sound(*expr_input, var_store@.len(), truth);
        }
    }
    let mut cnf = Cnf::new(var_store);
    let c = tseitin_encode_inner(expr_input, &mut cnf);
    let root = vec![c];
    assert(literals(root@) == seq![c as int]);
    cnf.add_clause(root);
    return cnf;
}

/// Emits the clauses for `expr` into `cnf`, arguments first, and returns the
/// literal that stands for `expr`.
fn tseitin_encode_inner(expr: &Expr, cnf: &mut Cnf) -> (c: i32)
    requires
        vars_within(*expr, old(cnf)@.names.len()),
        old(cnf)@.names.len() + aux_count(*expr) <= i32::MAX,
    ensures
        c == representative(*expr, old(cnf)@.names.len()),
        final(cnf)@.clauses == old(cnf)@.clauses + clauses_of(*expr, old(cnf)@.names.len()),
        final(cnf)@.names == with_extras(old(cnf)@.names, aux_count(*expr)),
        final(cnf)@.names.len() == old(cnf)@.names.len() + aux_count(*expr),
        old(cnf).wf() ==> final(cnf).wf(),
    decreases expr,
{
    let ghost n_var = cnf@.names.len();
    match expr {
        Expr::BiOp(expr_left, op, expr_right) => {
            let extra_atom_var_left = tseitin_encode_inner(expr_left, cnf);
            let ghost between = cnf@.names.len();
            proof {
                lemma_vars_within_more(**expr_right, n_var, between);
                lemma_representative_is_literal(**expr_left, n_var);
                lemma_representative_is_literal(**expr_right, between);
            }
            let extra_atom_var_right = tseitin_encode_inner(expr_right, cnf);
            proof {
                lemma_with_extras_add(
                    old(cnf)@.names,
                    aux_count(**expr_left),
                    aux_count(**expr_right),
                );
            }
            match op {
                BiOp::And => and_cnf(cnf, extra_atom_var_left, extra_atom_var_right),
                BiOp::Or => or_cnf(cnf, extra_atom_var_left, extra_atom_var_right),
            }
        },
        Expr::Not(expr_right) => {
            let extra_var = tseitin_encode_inner(expr_right, cnf);
            proof {
                lemma_representative_is_literal(**expr_right, n_var);
            }
            not_cnf(cnf, extra_var)
        },
        Expr::Atom(Atom::True) => {
            assert(with_extras(cnf@.names, 0) == cnf@.names);
            true_cnf(cnf)
        },
        Expr::Atom(Atom::False) => {
            assert(with_extras(cnf@.names, 0) == cnf@.names);
            false_cnf(cnf)
        },
        Expr::Atom(Atom::Var(x)) => *x as i32,
    }
}

/// Allocates a variable `c` and adds the clauses of `c <=> a & b`. Returns
/// `c`.
pub fn and_cnf(cnf: &mut Cnf, a: i32, b: i32) -> (c: i32)
    requires
        is_literal_of(a as int, old(cnf)@.names.len()),
        is_literal_of(b as int, old(cnf)@.names.len()),
        old(cnf)@.names.len() < i32::MAX,
    ensures
        c == old(cnf)@.names.len() + 1,
        final(cnf)@.names == with_extra(old(cnf)@.names),
        final(cnf)@.clauses == old(cnf)@.clauses + and_clauses(c as int, a as int, b as int),
        old(cnf).wf() ==> final(cnf).wf(),
{
    let extra_lit = cnf.mut_var_store().new_extra_var() as i32;
    let (not_c, not_a, not_b) = (-extra_lit, -a, -b);
    let first = vec![not_c, a];
    let second = vec![not_c, b];
    let third = vec![extra_lit, not_a, not_b];
    proof {
        assert(literals(first@) == seq![-extra_lit as int, a as int]);
        assert(literals(second@) == seq![-extra_lit as int, b as int]);
        assert(literals(third@) == seq![extra_lit as int, -a as int, -b as int]);
        lemma_wf_more(*old(cnf), *cnf);
    }
    cnf.add_clause(first);
    cnf.add_clause(second);
    cnf.add_clause(third);
    extra_lit
}

/// Allocates a variable `c` and adds the clauses of `c <=> a | b`. Returns
/// `c`.
pub fn or_cnf(cnf: &mut Cnf, a: i32, b: i32) -> (c: i32)
    requires
        is_literal_of(a as int, old(cnf)@.names.len()),
        is_literal_of(b as int, old(cnf)@.names.len()),
        old(cnf)@.names.len() < i32::MAX,
    ensures
        c == old(cnf)@.names.len() + 1,
        final(cnf)@.names == with_extra(old(cnf)@.names),
        final(cnf)@.clauses == old(cnf)@.clauses + or_clauses(c as int, a as int, b as int),
        old(cnf).wf() ==> final(cnf).wf(),
{
    let extra_lit = cnf.mut_var_store().new_extra_var() as i32;
    let (not_c, not_a, not_b) = (-extra_lit, -a, -b);
    let first = vec![extra_lit, not_a];
    let second = vec![extra_lit, not_b];
    let third = vec![not_c, a, b];
    proof {
        assert(literals(first@) == seq![extra_lit as int, -a as int]);
        assert(literals(second@) == seq![extra_lit as int, -b as int]);
        assert(literals(third@) == seq![-extra_lit as int, a as int, b as int]);
        lemma_wf_more(*old(cnf), *cnf);
    }
    cnf.add_clause(first);
    cnf.add_clause(second);
    cnf.add_clause(third);
    extra_lit
}

/// Allocates a variable `c` and adds the clauses of `c <=> !a`. Returns `c`.
pub fn not_cnf(cnf: &mut Cnf, a: i32) -> (c: i32)
    requires
        is_literal_of(a as int, old(cnf)@.names.len()),
        old(cnf)@.names.len() < i32::MAX,
    ensures
        c == old(cnf)@.names.len() + 1,
        final(cnf)@.names == with_extra(old(cnf)@.names),
        final(cnf)@.clauses == old(cnf)@.clauses + not_clauses(c as int, a as int),
        old(cnf).wf() ==> final(cnf).wf(),
{
    let extra_lit = cnf.mut_var_store().new_extra_var() as i32;
    let (not_c, not_a) = (-extra_lit, -a);
    let first = vec![not_c, not_a];
    let second = vec![extra_lit, a];
    proof {
        assert(literals(first@) == seq![-extra_lit as int, -a as int]);
        assert(literals(second@) == seq![extra_lit as int, a as int]);
        lemma_wf_more(*old(cnf), *cnf);
    }
    cnf.add_clause(first);
    cnf.add_clause(second);
    extra_lit
}

/// Allocates a variable `c` and adds the clause of `c <=> true`. Returns `c`.
pub fn true_cnf(cnf: &mut Cnf) -> (c: i32)
    requires
        old(cnf)@.names.len() < i32::MAX,
    ensures
        c == old(cnf)@.names.len() + 1,
        final(cnf)@.names == with_extra(old(cnf)@.names),
        final(cnf)@.clauses == old(cnf)@.clauses + true_clauses(c as int),
        old(cnf).wf() ==> final(cnf).wf(),
{
    let extra_lit = cnf.mut_var_store().new_extra_var() as i32;
    let only = vec![extra_lit];
    proof {
        assert(literals(only@) == seq![extra_lit as int]);
        lemma_wf_more(*old(cnf), *cnf);
    }
    cnf.add_clause(only);
    extra_lit
}

/// Allocates a variable `c` and adds the clause of `c <=> false`. Returns
/// `c`.
pub fn false_cnf(cnf: &mut Cnf) -> (c: i32)
    requires
        old(cnf)@.names.len() < i32::MAX,
    ensures
        c == old(cnf)@.names.len() + 1,
        final(cnf)@.names == with_extra(old(cnf)@.names),
        final(cnf)@.clauses == old(cnf)@.clauses + false_clauses(c as int),
        old(cnf).wf() ==> final(cnf).wf(),
{
    let extra_lit = cnf.mut_var_store().new_extra_var() as i32;
    let not_c = -extra_lit;
    let only = vec![not_c];
    proof {
        assert(literals(only@) == seq![-extra_lit as int]);
        lemma_wf_more(*old(cnf), *cnf);
    }
    cnf.add_clause(only);
    extra_lit
}

/// The literal that stands for an expression over `1..=n_var` is one of the
/// variables after the transformation.
pub proof fn lemma_representative_is_literal(e: Expr, n_var: nat)
    requires
        vars_within(e, n_var),
    ensures
        1 <= representative(e, n_var) <= n_var + aux_count(e),
{
}

/// No clause that the transformation emits for an expression over
/// `1..=n_var` holds a zero or speaks of a variable beyond the ones that the
/// registry holds afterwards.
pub proof fn lemma_clauses_of_within(e: Expr, n_var: nat)
    requires
        vars_within(e, n_var),
    ensures
        are_clauses_of(clauses_of(e, n_var), n_var + aux_count(e)),
    decreases e,
{
    let n_after = n_var + aux_count(e);
    let c = representative(e, n_var);
    match e {
        Expr::Atom(_) => {},
        Expr::Not(inner) => {
            lemma_clauses_of_within(*inner, n_var);
            lemma_clauses_over_more(clauses_of(*inner, n_var), n_var + aux_count(*inner), n_after);
            lemma_representative_is_literal(*inner, n_var);
            lemma_clauses_over_concat(
                clauses_of(*inner, n_var),
                not_clauses(c, representative(*inner, n_var)),
                n_after,
            );
        },
        Expr::BiOp(left, op, right) => {
            let between = n_var + aux_count(*left);
            let a = representative(*left, n_var);
            let b = representative(*right, between);
            lemma_vars_within_more(*right, n_var, between);
            lemma_clauses_of_within(*left, n_var);
            lemma_clauses_of_within(*right, between);
            lemma_clauses_over_more(clauses_of(*left, n_var), between, n_after);
            lemma_clauses_over_more(
                clauses_of(*right, between),
                between + aux_count(*right),
                n_after,
            );
            lemma_representative_is_literal(*left, n_var);
            lemma_representative_is_literal(*right, between);
            lemma_clauses_over_concat(
                clauses_of(*left, n_var),
                clauses_of(*right, between),
                n_after,
            );
            let own = match op {
                BiOp::And => and_clauses(c, a, b),
                BiOp::Or => or_clauses(c, a, b),
            };
            lemma_clauses_over_concat(
                clauses_of(*left, n_var) + clauses_of(*right, between),
                own,
                n_after,
            );
        },
    }
}

/// Every literal of every clause of the whole transformation speaks of one
/// of the variables that the registry holds afterwards.
pub proof fn lemma_encoding_within(e: Expr, n_var: nat)
    requires
        vars_within(e, n_var),
    ensures
        are_clauses_of(encoding(e, n_var), n_var + aux_count(e)),
{
    lemma_clauses_of_within(e, n_var);
    lemma_representative_is_literal(e, n_var);
    let root = seq![seq![representative(e, n_var)]];
    lemma_clauses_over_concat(clauses_of(e, n_var), root, n_var + aux_count(e));
}

/// The clauses that tie a variable to its arguments speak of the variable
/// and of the arguments.
pub proof fn lemma_gate_mentions(c: int, a: int, b: int)
    ensures
        mentions(and_clauses(c, a, b), c),
        mentions(and_clauses(c, a, b), a),
        mentions(and_clauses(c, a, b), b),
        mentions(or_clauses(c, a, b), c),
        mentions(or_clauses(c, a, b), a),
        mentions(or_clauses(c, a, b), b),
        mentions(not_clauses(c, a), c),
        mentions(not_clauses(c, a), a),
        mentions(true_clauses(c), c),
        mentions(false_clauses(c), c),
{
    assert(and_clauses(c, a, b)[2][0] == c);
    assert(and_clauses(c, a, b)[0][1] == a);
    assert(and_clauses(c, a, b)[1][1] == b);
    assert(or_clauses(c, a, b)[0][0] == c);
    assert(or_clauses(c, a, b)[2][1] == a);
    assert(or_clauses(c, a, b)[2][2] == b);
    assert(not_clauses(c, a)[1][0] == c);
    assert(not_clauses(c, a)[1][1] == a);
    assert(true_clauses(c)[0][0] == c);
    assert(false_clauses(c)[0][0] == -c);
}

/// The clauses emitted for an expression speak of each of its extra
/// variables and of each variable that occurs in it, but for the one that
/// stands for the expression itself where the expression is a variable.
pub proof fn lemma_clauses_of_mention(e: Expr, n_var: nat, v: int)
    requires
        n_var < v <= n_var + aux_count(e) || occurs(e, v),
    ensures
        mentions(clauses_of(e, n_var), v) || representative(e, n_var) == v,
    decreases e,
{
    let c = representative(e, n_var);
    lemma_gate_mentions(c, 0, 0);
    match e {
        Expr::Atom(_) => {},
        Expr::Not(inner) => {
            let a = representative(*inner, n_var);
            lemma_gate_mentions(c, a, 0);
            lemma_mentions_concat(clauses_of(*inner, n_var), not_clauses(c, a), v);
            if v != c {
                lemma_clauses_of_mention(*inner, n_var, v);
            }
        },
        Expr::BiOp(left, op, right) => {
            let between = n_var + aux_count(*left);
            let a = representative(*left, n_var);
            let b = representative(*right, between);
            let own = match op {
                BiOp::And => and_clauses(c, a, b),
                BiOp::Or => or_clauses(c, a, b),
            };
            lemma_gate_mentions(c, a, b);
            lemma_mentions_concat(clauses_of(*left, n_var), clauses_of(*right, between), v);
            lemma_mentions_concat(clauses_of(*left, n_var) + clauses_of(*right, between), own, v);
            if v != c {
                if n_var < v <= between || occurs(*left, v) {
                    lemma_clauses_of_mention(*left, n_var, v);
                } else {
                    lemma_clauses_of_mention(*right, between, v);
                }
            }
        },
    }
}

/// Where every variable of the registry occurs in the expression, the
/// clauses of the transformation speak of exactly the variables that the
/// registry holds afterwards.
pub proof fn lemma_encoding_mentions(e: Expr, n_var: nat, v: int)
    requires
        vars_within(e, n_var),
        forall|u: int| 1 <= u <= n_var ==> occurs(e, u),
    ensures
        referenced(encoding(e, n_var)).contains(v) <==> 1 <= v <= n_var + aux_count(e),
{
    let clauses = encoding(e, n_var);
    let root = seq![seq![representative(e, n_var)]];
    assert(clauses == clauses_of(e, n_var) + root);
    lemma_mentions_concat(clauses_of(e, n_var), root, v);
    if 1 <= v <= n_var + aux_count(e) {
        lemma_clauses_of_mention(e, n_var, v);
        if representative(e, n_var) == v {
            assert(root[0][0] == v);
        }
    }
    if v > 0 && mentions(clauses, v) {
        lemma_encoding_within(e, n_var);
    }
}

/// Where every variable of the registry occurs in the expression, the
/// clauses of the transformation speak of as many variables as the registry
/// holds afterwards.
pub proof fn lemma_encoding_references_all(e: Expr, n_var: nat)
    requires
        vars_within(e, n_var),
        forall|u: int| 1 <= u <= n_var ==> occurs(e, u),
    ensures
        referenced(encoding(e, n_var)).finite(),
        referenced(encoding(e, n_var)).len() == n_var + aux_count(e),
{
    let end = (n_var + aux_count(e) + 1) as int;
    let all = vstd::set_lib::set_int_range(1, end);
    assert forall|v: int| referenced(encoding(e, n_var)).contains(v) == all.contains(v) by {
        lemma_encoding_mentions(e, n_var, v);
    }
    assert(referenced(encoding(e, n_var)) == all);
    vstd::set_lib::lemma_int_range(1, end);
}

/// Clauses over the variables of a registry stay so when the registry grows.
proof fn lemma_wf_more(before: Cnf, after: Cnf)
    requires
        after@.clauses == before@.clauses,
        before@.names.len() <= after@.names.len(),
    ensures
        before.wf() ==> after.wf(),
{
    if before.wf() {
        lemma_clauses_over_more(before@.clauses, before@.names.len(), after@.names.len());
    }
}

} // verus!
