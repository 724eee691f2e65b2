use tseitin::grammar::grammar_bool::Expr;
use tseitin::tseitin::tseitin_encoder;

fn var(name: &str) -> Expr {
    Expr::Var(name.to_string())
}

fn extra(n: usize) -> Expr {
    Expr::Var(format!("EXTRA_VAR_{}", n))
}

fn neg(inner: Expr) -> Expr {
    Expr::Neg((), Box::new(inner))
}

fn and(left: Expr, right: Expr) -> Expr {
    Expr::And(Box::new(left), (), Box::new(right))
}

fn or(left: Expr, right: Expr) -> Expr {
    Expr::Or(Box::new(left), (), Box::new(right))
}

fn bracket(inner: Expr) -> Expr {
    Expr::Bracket((), Box::new(inner), ())
}

/// The constraints of `c <=> x & y`.
fn and_constraints(c: Expr, x: Expr, y: Expr) -> Expr {
    and(
        or(or(neg(x.clone()), neg(y.clone())), c.clone()),
        and(or(x, neg(c.clone())), or(y, neg(c))),
    )
}

/// The constraints of `c <=> x | y`.
fn or_constraints(c: Expr, x: Expr, y: Expr) -> Expr {
    and(
        or(or(x.clone(), y.clone()), neg(c.clone())),
        and(or(c.clone(), neg(x)), or(c, neg(y))),
    )
}

/// The constraints of `c <=> !x`.
fn neg_constraints(c: Expr, x: Expr) -> Expr {
    and(or(neg(x.clone()), neg(c.clone())), or(x, c))
}

#[test]
fn variable_has_no_connective() {
    assert_eq!(
        tseitin_encoder(var("x")),
        Err("Tseitin Expression could not be created".to_string())
    );
    assert_eq!(
        tseitin_encoder(bracket(bracket(var("x")))),
        Err("Tseitin Expression could not be created".to_string())
    );
}

#[test]
fn one_connective() {
    assert_eq!(
        tseitin_encoder(and(var("x"), var("y"))),
        Ok(and_constraints(extra(0), var("x"), var("y")))
    );
    assert_eq!(
        tseitin_encoder(or(var("x"), var("y"))),
        Ok(or_constraints(extra(0), var("x"), var("y")))
    );
    assert_eq!(
        tseitin_encoder(neg(var("x"))),
        Ok(neg_constraints(extra(0), var("x")))
    );
}

#[test]
fn arguments_are_numbered_from_their_connective() {
    let formula = or(and(var("x"), var("y")), bracket(neg(var("z"))));
    assert_eq!(
        tseitin_encoder(formula),
        Ok(and(
            and(
                or_constraints(extra(0), extra(1), extra(2)),
                and_constraints(extra(1), var("x"), var("y")),
            ),
            neg_constraints(extra(2), var("z")),
        ))
    );
}

#[test]
fn numbers_go_on_down_the_tree() {
    let formula = neg(neg(and(var("x"), neg(var("y")))));
    assert_eq!(
        tseitin_encoder(formula),
        Ok(and(
            neg_constraints(extra(0), extra(1)),
            and(
                neg_constraints(extra(1), extra(2)),
                and(
                    and_constraints(extra(2), var("x"), extra(4)),
                    neg_constraints(extra(4), var("y")),
                ),
            ),
        ))
    );
}

#[test]
fn numerals_of_ten_and_more() {
    let mut formula = var("x");
    for _ in 0..11 {
        formula = neg(formula);
    }
    let mut expected = neg_constraints(extra(10), var("x"));
    for n in (0..10).rev() {
        expected = and(neg_constraints(extra(n), extra(n + 1)), expected);
    }
    assert_eq!(tseitin_encoder(formula), Ok(expected));
}
