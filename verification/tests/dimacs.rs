use tseitin::cnf::Cnf;
use tseitin::var::VarStore;

fn store_of(names: &[&str]) -> VarStore {
    let mut store = VarStore::new();
    for name in names {
        store.insert_and_get_index(name.to_string());
    }
    store
}

#[test]
fn empty_formula() {
    let cnf = Cnf::new(VarStore::new());
    assert_eq!(cnf.to_dimacs_string(), Ok("p cnf 0 0\n".to_string()));
    assert_eq!(cnf.var_store().n_var(), 0);
}

#[test]
fn header_counts_variables_without_clauses() {
    let cnf = Cnf::new(store_of(&["a", "b", "c"]));
    assert_eq!(cnf.to_dimacs_string(), Ok("p cnf 3 0\n".to_string()));
}

#[test]
fn clauses_keep_their_order_and_their_literals_theirs() {
    let mut cnf = Cnf::new(store_of(&["a", "b", "c"]));
    cnf.add_clause(vec![3, -1, 2]);
    cnf.add_clause(vec![-2]);
    cnf.add_clause(vec![]);
    cnf.add_clause(vec![1, 1]);
    assert_eq!(
        cnf.to_dimacs_string(),
        Ok("p cnf 3 4\n3 -1 2 0\n-2 0\n0\n1 1 0\n".to_string())
    );
}

#[test]
fn numbers_of_more_than_one_digit() {
    let mut store = VarStore::new();
    for i in 0..120 {
        store.insert_and_get_index(format!("x{}", i));
    }
    let mut cnf = Cnf::new(store);
    for i in 1..=11 {
        cnf.add_clause(vec![10 * i, -(10 * i + 9)]);
    }
    cnf.add_clause(vec![-100, 120, -7]);
    let text = cnf.to_dimacs_string().unwrap();
    assert!(text.starts_with("p cnf 120 12\n10 -19 0\n20 -29 0\n"));
    assert!(text.ends_with("110 -119 0\n-100 120 -7 0\n"));
    assert_eq!(text.lines().count(), 13);
}

#[test]
fn registry_can_grow_under_the_clauses() {
    let mut cnf = Cnf::new(store_of(&["a"]));
    cnf.add_clause(vec![-1]);
    assert_eq!(cnf.mut_var_store().new_extra_var(), 2);
    assert_eq!(
        cnf.mut_var_store().insert_and_get_index("b".to_string()),
        3
    );
    cnf.add_clause(vec![2, 3]);
    assert_eq!(
        cnf.to_dimacs_string(),
        Ok("p cnf 3 2\n-1 0\n2 3 0\n".to_string())
    );
    assert_eq!(cnf.var_store().to_csv_string(), "1 a\n2 EXTRA_VAR_2\n3 b\n");
}
