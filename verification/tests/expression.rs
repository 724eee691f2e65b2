use std::collections::HashSet;

use tseitin::expression::ExprIterator;
use tseitin::grammar::grammar_bool::Expr;

#[test]
fn test_next() {
    let x = Expr::Var("x".into());
    let y = Expr::Var("y".into());
    let not_y = Expr::Neg((), Box::new(y.clone()));

    let x_and_y = Expr::And(Box::new(x.clone()), (), Box::new(y.clone()));
    let x_or_not_y = Expr::Or(Box::new(x.clone()), (), Box::new(not_y.clone()));
    let x_or_not_y_in_bracket = Expr::Bracket((), Box::new(x_or_not_y.clone()), ());

    let expr = Expr::Or(
        Box::new(x_and_y.clone()),
        (),
        Box::new(x_or_not_y_in_bracket.clone()),
    );

    let mut expr_iter = expr.into_iter();

    assert_eq!(expr, expr_iter.next().unwrap());
    assert_eq!(x_and_y, expr_iter.next().unwrap());
    assert_eq!(x, expr_iter.next().unwrap());
    assert_eq!(y, expr_iter.next().unwrap());
    assert_eq!(x_or_not_y_in_bracket, expr_iter.next().unwrap());
    assert_eq!(x_or_not_y, expr_iter.next().unwrap());
    assert_eq!(x, expr_iter.next().unwrap());
    assert_eq!(not_y, expr_iter.next().unwrap());
    assert_eq!(y, expr_iter.next().unwrap());
}

#[test]
fn test_next_with_no_right_node_at_root() {
    let x = Expr::Var("x".into());
    let y = Expr::Var("y".into());
    let not_y = Expr::Neg((), Box::new(y.clone()));

    let x_and_y = Expr::And(Box::new(x.clone()), (), Box::new(y.clone()));
    let x_or_not_y = Expr::Or(Box::new(x.clone()), (), Box::new(not_y.clone()));
    let x_or_not_y_in_bracket = Expr::Bracket((), Box::new(x_or_not_y.clone()), ());

    let x_and_y_or_x_or_not_y_in_bracket = Expr::Or(
        Box::new(x_and_y.clone()),
        (),
        Box::new(x_or_not_y_in_bracket.clone()),
    );

    let expr = Expr::Neg((), Box::new(x_and_y_or_x_or_not_y_in_bracket.clone()));

    let mut formula = ExprIterator::gen(expr.clone());

    assert_eq!(expr, formula.next().unwrap());
    assert_eq!(x_and_y_or_x_or_not_y_in_bracket, formula.next().unwrap());
    assert_eq!(x_and_y, formula.next().unwrap());
    assert_eq!(x, formula.next().unwrap());
    assert_eq!(y, formula.next().unwrap());
    assert_eq!(x_or_not_y_in_bracket, formula.next().unwrap());
    assert_eq!(x_or_not_y, formula.next().unwrap());
    assert_eq!(x, formula.next().unwrap());
    assert_eq!(not_y, formula.next().unwrap());
    assert_eq!(y, formula.next().unwrap());
}

#[test]
fn test_variables() {
    let x = Expr::Var("x".into());
    let y = Expr::Var("y".into());
    let z = Expr::Var("z".into());

    let not_y = Expr::Neg((), Box::new(y));
    let not_z = Expr::Neg((), Box::new(z));

    let x_and_not_z = Expr::And(Box::new(x.clone()), (), Box::new(not_z));
    let x_or_not_y = Expr::Or(Box::new(x), (), Box::new(not_y));
    let x_or_not_y_in_bracket = Expr::Bracket((), Box::new(x_or_not_y), ());

    let mut expr = Expr::Or(Box::new(x_and_not_z), (), Box::new(x_or_not_y_in_bracket));

    let variables: HashSet<String> = expr.variables().into_iter().collect();

    let mut variables_expected = HashSet::<String>::new();
    variables_expected.insert("x".to_string());
    variables_expected.insert("y".to_string());
    variables_expected.insert("z".to_string());

    assert_eq!(variables, variables_expected);
}

fn var(name: &str) -> Expr {
    Expr::Var(name.to_string())
}

fn neg(inner: Expr) -> Expr {
    Expr::Neg((), Box::new(inner))
}

fn and(left: Expr, right: Expr) -> Expr {
    Expr::And(Box::new(left), (), Box::new(right))
}

fn or(left: Expr, right: Expr) -> Expr {
    Expr::Or(Box::new(left), (), Box::new(right))
}

fn bracket(inner: Expr) -> Expr {
    Expr::Bracket((), Box::new(inner), ())
}

fn all_nodes(expr: &Expr) -> Vec<Expr> {
    let mut walk = expr.into_iter();
    let mut nodes = Vec::new();
    while let Some(node) = walk.next() {
        nodes.push(node);
        assert!(nodes.len() <= 100);
    }
    assert_eq!(walk.next(), None);
    nodes
}

#[test]
fn walk_ends_after_the_last_node() {
    let expr = or(and(var("x"), var("y")), bracket(or(var("x"), neg(var("y")))));
    assert_eq!(all_nodes(&expr).len(), 9);
}

#[test]
fn walk_ends_where_the_root_has_one_argument() {
    let inner = or(and(var("x"), var("y")), bracket(or(var("x"), neg(var("y")))));
    assert_eq!(all_nodes(&neg(inner.clone())).len(), 10);
    assert_eq!(all_nodes(&bracket(inner)).len(), 10);
    assert_eq!(
        all_nodes(&neg(var("x"))),
        vec![neg(var("x")), var("x")]
    );
}

#[test]
fn walk_over_a_single_variable() {
    assert_eq!(all_nodes(&var("x")), vec![var("x")]);
}

#[test]
fn walk_is_in_pre_order() {
    let expr = and(neg(var("a")), or(var("b"), var("c")));
    assert_eq!(
        all_nodes(&expr),
        vec![
            expr.clone(),
            neg(var("a")),
            var("a"),
            or(var("b"), var("c")),
            var("b"),
            var("c"),
        ]
    );
}

#[test]
fn variables_come_once_in_order_of_first_occurrence() {
    let mut expr = or(and(var("x"), neg(var("z"))), bracket(or(var("x"), neg(var("y")))));
    assert_eq!(expr.variables(), vec!["x", "z", "y"]);
    assert_eq!(var("v").variables(), vec!["v"]);
    assert_eq!(neg(var("v")).variables(), vec!["v"]);
}

#[test]
fn terminal_is_a_variable() {
    assert!(var("x").is_terminal());
    assert!(!neg(var("x")).is_terminal());
    assert!(!bracket(var("x")).is_terminal());
    assert!(!and(var("x"), var("y")).is_terminal());
    assert!(!or(var("x"), var("y")).is_terminal());
}

#[test]
fn copied_walk_goes_on_from_the_same_node() {
    let expr = and(neg(var("a")), or(var("b"), var("c")));
    let mut walk = expr.into_iter();
    walk.next();
    walk.next();
    let mut copy = walk.clone();
    let mut rest = Vec::new();
    while let Some(node) = walk.next() {
        rest.push(node);
    }
    let mut rest_of_copy = Vec::new();
    while let Some(node) = copy.next() {
        rest_of_copy.push(node);
    }
    assert_eq!(rest, rest_of_copy);
    assert_eq!(
        rest,
        vec![var("a"), or(var("b"), var("c")), var("b"), var("c")]
    );
}
