use tseitin::algorithm::{and_cnf, encodable, false_cnf, not_cnf, or_cnf, true_cnf, tseitin_encode};
use tseitin::cnf::Cnf;
use tseitin::expr::{BiOp, Expr};
use tseitin::lexer::lex;
use tseitin::parser::Parser;
use tseitin::types::Atom;
use tseitin::var::VarStore;

fn encode(text: &str) -> Cnf {
    let (tokens, store) = lex(text.to_string()).unwrap();
    let tree = Parser::new(tokens).process(0).unwrap();
    assert!(encodable(&tree, &store));
    tseitin_encode(&tree, store)
}

/// The header's two numbers and the clauses of a DIMACS text.
fn read_dimacs(text: &str) -> (usize, usize, Vec<Vec<i32>>) {
    assert!(text.ends_with('\n'));
    let mut lines = text.lines();
    let header: Vec<&str> = lines.next().unwrap().split(' ').collect();
    assert_eq!(header.len(), 4);
    assert_eq!(header[0], "p");
    assert_eq!(header[1], "cnf");
    let clauses = lines
        .map(|line| {
            let mut numbers: Vec<i32> = line.split(' ').map(|n| n.parse().unwrap()).collect();
            assert_eq!(numbers.pop(), Some(0));
            numbers
        })
        .collect();
    (
        header[2].parse().unwrap(),
        header[3].parse().unwrap(),
        clauses,
    )
}

fn clauses_of(cnf: &Cnf) -> Vec<Vec<i32>> {
    read_dimacs(&cnf.to_dimacs_string().unwrap()).2
}

fn store_of(n_var: usize) -> VarStore {
    let mut store = VarStore::new();
    for i in 0..n_var {
        store.insert_and_get_index(format!("v{}", i + 1));
    }
    store
}

#[test]
fn scenario_encoding() {
    let cnf = encode("a & (!b | 1)\n");
    assert_eq!(
        cnf.to_dimacs_string(),
        Ok("p cnf 6 10\n\
            -3 -2 0\n\
            3 2 0\n\
            4 0\n\
            5 -3 0\n\
            5 -4 0\n\
            -5 3 4 0\n\
            -6 1 0\n\
            -6 5 0\n\
            6 -1 -5 0\n\
            6 0\n"
            .to_string())
    );
    assert_eq!(
        cnf.var_store().to_csv_string(),
        "1 a\n2 b\n3 EXTRA_VAR_3\n4 EXTRA_VAR_4\n5 EXTRA_VAR_5\n6 EXTRA_VAR_6\n"
    );
}

#[test]
fn single_variable_needs_no_extra_variable() {
    let cnf = encode("a");
    assert_eq!(cnf.to_dimacs_string(), Ok("p cnf 1 1\n1 0\n".to_string()));
    assert_eq!(cnf.var_store().n_var(), 1);
}

#[test]
fn constants_get_a_variable_each() {
    assert_eq!(
        encode("1").to_dimacs_string(),
        Ok("p cnf 1 2\n1 0\n1 0\n".to_string())
    );
    assert_eq!(
        encode("0").to_dimacs_string(),
        Ok("p cnf 1 2\n-1 0\n1 0\n".to_string())
    );
    assert_eq!(
        encode("a & 1").to_dimacs_string(),
        Ok("p cnf 3 5\n2 0\n-3 1 0\n-3 2 0\n3 -1 -2 0\n3 0\n".to_string())
    );
}

#[test]
fn connectives_one_by_one() {
    assert_eq!(
        encode("a & b").to_dimacs_string(),
        Ok("p cnf 3 4\n-3 1 0\n-3 2 0\n3 -1 -2 0\n3 0\n".to_string())
    );
    assert_eq!(
        encode("a | b").to_dimacs_string(),
        Ok("p cnf 3 4\n3 -1 0\n3 -2 0\n-3 1 2 0\n3 0\n".to_string())
    );
    assert_eq!(
        encode("!a").to_dimacs_string(),
        Ok("p cnf 2 3\n-2 -1 0\n2 1 0\n2 0\n".to_string())
    );
}

#[test]
fn arguments_come_before_their_connective() {
    assert_eq!(
        clauses_of(&encode("(a & b) | !c")),
        vec![
            vec![-4, 1],
            vec![-4, 2],
            vec![4, -1, -2],
            vec![-5, -3],
            vec![5, 3],
            vec![6, -4],
            vec![6, -5],
            vec![-6, 4, 5],
            vec![6],
        ]
    );
}

#[test]
fn and_gate() {
    let mut cnf = Cnf::new(store_of(2));
    assert_eq!(and_cnf(&mut cnf, 1, -2), 3);
    assert_eq!(
        clauses_of(&cnf),
        vec![vec![-3, 1], vec![-3, -2], vec![3, -1, 2]]
    );
    assert_eq!(cnf.var_store().n_var(), 3);
    assert_eq!(cnf.var_store().get(&"EXTRA_VAR_3".to_string()), Some(3));
}

#[test]
fn or_gate() {
    let mut cnf = Cnf::new(store_of(2));
    assert_eq!(or_cnf(&mut cnf, 1, -2), 3);
    assert_eq!(
        clauses_of(&cnf),
        vec![vec![3, -1], vec![3, 2], vec![-3, 1, -2]]
    );
    assert_eq!(cnf.var_store().n_var(), 3);
}

#[test]
fn not_gate() {
    let mut cnf = Cnf::new(store_of(1));
    assert_eq!(not_cnf(&mut cnf, 1), 2);
    assert_eq!(clauses_of(&cnf), vec![vec![-2, -1], vec![2, 1]]);
    assert_eq!(not_cnf(&mut cnf, -2), 3);
    assert_eq!(
        clauses_of(&cnf),
        vec![vec![-2, -1], vec![2, 1], vec![-3, 2], vec![3, -2]]
    );
}

#[test]
fn constant_gates() {
    let mut cnf = Cnf::new(VarStore::new());
    assert_eq!(true_cnf(&mut cnf), 1);
    assert_eq!(false_cnf(&mut cnf), 2);
    assert_eq!(clauses_of(&cnf), vec![vec![1], vec![-2]]);
    assert_eq!(cnf.var_store().n_var(), 2);
}

#[test]
fn encodable_wants_the_variables_in_the_registry() {
    let tree = Expr::BiOp(
        Box::new(Expr::Atom(Atom::Var(1))),
        BiOp::And,
        Box::new(Expr::Not(Box::new(Expr::Atom(Atom::Var(3))))),
    );
    assert!(!encodable(&tree, &store_of(2)));
    assert!(encodable(&tree, &store_of(3)));
    assert!(!encodable(&Expr::Atom(Atom::Var(0)), &store_of(3)));
    assert!(encodable(&Expr::Atom(Atom::True), &VarStore::new()));
    assert!(encodable(&Expr::Atom(Atom::Var(3)), &store_of(3)));
}

#[test]
fn extra_variables_keep_clear_of_names_in_use() {
    let cnf = encode("a & EXTRA_VAR_3");
    assert_eq!(
        cnf.to_dimacs_string(),
        Ok("p cnf 3 4\n-3 1 0\n-3 2 0\n3 -1 -2 0\n3 0\n".to_string())
    );
    assert_eq!(
        cnf.var_store().to_csv_string(),
        "1 a\n2 EXTRA_VAR_3\n3 EXTRA_VAR_03\n"
    );
}

#[test]
fn literals_stay_within_the_registry() {
    for text in [
        "a",
        "a & b",
        "!(a | b) & (c | 0) | !1",
        "a & EXTRA_VAR_3 | EXTRA_VAR_4",
    ] {
        let cnf = encode(text);
        let n_var = cnf.var_store().n_var() as i32;
        for clause in clauses_of(&cnf) {
            for literal in clause {
                assert!(literal != 0);
                assert!(literal.abs() <= n_var);
            }
        }
    }
}

#[test]
fn header_counts_are_exact() {
    for text in ["a", "a & b", "!(a | b) & (c | 0) | !1", "b & a & b"] {
        let cnf = encode(text);
        let (n_var, n_clauses, clauses) = read_dimacs(&cnf.to_dimacs_string().unwrap());
        assert_eq!(n_var, cnf.var_store().n_var());
        assert_eq!(n_clauses, clauses.len());
        let mut seen: Vec<i32> = clauses.concat().iter().map(|l| l.abs()).collect();
        seen.sort();
        seen.dedup();
        assert_eq!(seen, (1..=n_var as i32).collect::<Vec<i32>>());
    }
}

#[test]
fn serializing_twice_gives_the_same_text() {
    let cnf = encode("!(a | b) & (c | 0) | !1");
    assert_eq!(cnf.to_dimacs_string(), cnf.to_dimacs_string());
}

#[test]
fn encoding_twice_gives_the_same_text() {
    assert_eq!(
        encode("!(a | b) & (c | 0)").to_dimacs_string(),
        encode("!(a | b) & (c | 0)").to_dimacs_string()
    );
}

fn value(tree: &Expr, truth: &[bool]) -> bool {
    match tree {
        Expr::Atom(Atom::Var(x)) => truth[*x - 1],
        Expr::Atom(Atom::True) => true,
        Expr::Atom(Atom::False) => false,
        Expr::Not(inner) => !value(inner, truth),
        Expr::BiOp(left, BiOp::And, right) => value(left, truth) && value(right, truth),
        Expr::BiOp(left, BiOp::Or, right) => value(left, truth) || value(right, truth),
    }
}

fn holds(clauses: &[Vec<i32>], truth: &[bool]) -> bool {
    clauses.iter().all(|clause| {
        clause
            .iter()
            .any(|&l| truth[(l.abs() - 1) as usize] == (l > 0))
    })
}

fn assignments(n_var: usize) -> Vec<Vec<bool>> {
    (0..1usize << n_var)
        .map(|bits| (0..n_var).map(|v| bits >> v & 1 == 1).collect())
        .collect()
}

/// Checks, over all assignments, that the clauses hold only where the
/// formula is true, and that each assignment of the formula's variables under
/// which it is true can be completed to one under which the clauses hold.
fn check_satisfiability_kept(text: &str, satisfiable: bool) {
    let (tokens, store) = lex(text.to_string()).unwrap();
    let tree = Parser::new(tokens).process(0).unwrap();
    let n_user = store.n_var();
    let cnf = tseitin_encode(&tree, store);
    let n_var = cnf.var_store().n_var();
    let clauses = clauses_of(&cnf);
    let models: Vec<Vec<bool>> = assignments(n_var)
        .into_iter()
        .filter(|truth| holds(&clauses, truth))
        .collect();
    for model in &models {
        assert!(value(&tree, &model[..n_user]));
    }
    for truth in assignments(n_user) {
        let completed = models.iter().any(|model| model[..n_user] == truth[..]);
        assert_eq!(completed, value(&tree, &truth));
    }
    assert_eq!(!models.is_empty(), satisfiable);
}

#[test]
fn satisfiability_is_kept() {
    check_satisfiability_kept("a & b", true);
    check_satisfiability_kept("a | b", true);
    check_satisfiability_kept("!a", true);
    check_satisfiability_kept("(a & b) | c", true);
    check_satisfiability_kept("a", true);
    check_satisfiability_kept("1", true);
    check_satisfiability_kept("0", false);
    check_satisfiability_kept("a & !a", false);
    check_satisfiability_kept("(a | b) & !a & !b", false);
    check_satisfiability_kept("!(a | !b) | (a & 0) | !1", true);
    check_satisfiability_kept("a & (!b | 1)", true);
}
