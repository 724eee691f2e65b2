use tseitin::expr::{BiOp, Expr};
use tseitin::types::Atom;

fn var(index: usize) -> Expr {
    Expr::Atom(Atom::Var(index))
}

fn and(left: Expr, right: Expr) -> Expr {
    Expr::BiOp(Box::new(left), BiOp::And, Box::new(right))
}

fn or(left: Expr, right: Expr) -> Expr {
    Expr::BiOp(Box::new(left), BiOp::Or, Box::new(right))
}

fn not(inner: Expr) -> Expr {
    Expr::Not(Box::new(inner))
}

#[test]
fn written_out() {
    assert_eq!(String::from(var(12)), "12");
    assert_eq!(String::from(Expr::Atom(Atom::True)), "True");
    assert_eq!(String::from(Expr::Atom(Atom::False)), "False");
    assert_eq!(String::from(not(var(1))), "!(1)");
    assert_eq!(String::from(and(var(1), var(2))), "(1 & 2)");
    assert_eq!(String::from(or(var(1), var(2))), "(1 | 2)");
    let text: String = or(and(var(1), not(var(20))), Expr::Atom(Atom::False)).into();
    assert_eq!(text, "((1 & !(20)) | False)");
}

#[test]
fn copies_are_equal_trees() {
    let tree = or(and(var(1), not(var(2))), Expr::Atom(Atom::True));
    assert_eq!(tree.clone(), tree);
    assert_ne!(and(var(1), var(2)), not(or(not(var(1)), not(var(2)))));
    assert_eq!(
        format!("{:?}", and(var(1), not(var(2)))),
        "BiOp(Atom(Var(1)), And, Not(Atom(Var(2))))"
    );
}

#[test]
fn conjunctive_normal_form() {
    assert!(var(1).is_cnf());
    assert!(not(var(1)).is_cnf());
    assert!(Expr::Atom(Atom::False).is_cnf());
    assert!(or(var(1), not(var(2))).is_cnf());
    assert!(or(or(var(1), var(2)), or(not(var(3)), var(4))).is_cnf());
    assert!(and(var(1), var(2)).is_cnf());
    assert!(and(and(or(var(1), var(2)), not(var(3))), or(var(1), not(var(2)))).is_cnf());
    assert!(!not(not(var(1))).is_cnf());
    assert!(!not(or(var(1), var(2))).is_cnf());
    assert!(!not(and(var(1), var(2))).is_cnf());
    assert!(!or(and(var(1), var(2)), var(3)).is_cnf());
    assert!(!or(var(3), and(var(1), var(2))).is_cnf());
    assert!(!and(var(3), or(var(1), not(not(var(2))))).is_cnf());
}
