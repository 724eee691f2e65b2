use tseitin::expr::{BiOp, Expr};
use tseitin::input::{read_formula, try_to_expr_from, InputError};
use tseitin::lexer::{LexerErrorCode, Token};
use tseitin::parser::ParseError;
use tseitin::types::{Atom, Op};

#[test]
fn blank_text_is_no_formula_and_no_error() {
    assert!(matches!(try_to_expr_from(String::new()), Ok(None)));
    assert!(matches!(try_to_expr_from(" \n\t ".to_string()), Ok(None)));
    assert!(matches!(
        try_to_expr_from("\u{a0}\u{2003}".to_string()),
        Ok(None)
    ));
}

#[test]
fn formula_with_its_registry() {
    let (tree, store) = try_to_expr_from(" b & a \n".to_string())
        .unwrap()
        .unwrap();
    assert_eq!(
        tree,
        Expr::BiOp(
            Box::new(Expr::Atom(Atom::Var(1))),
            BiOp::And,
            Box::new(Expr::Atom(Atom::Var(2)))
        )
    );
    assert_eq!(store.to_csv_string(), "1 b\n2 a\n");
}

#[test]
fn white_space_around_the_text_is_taken_off() {
    let (tree, store) = try_to_expr_from("\u{a0}\u{b}a\u{2003}\u{85}".to_string())
        .unwrap()
        .unwrap();
    assert_eq!(tree, Expr::Atom(Atom::Var(1)));
    assert_eq!(store.n_var(), 1);
    assert_eq!(
        try_to_expr_from("a \u{a0} b".to_string()).err(),
        Some(InputError::Lexer(LexerErrorCode::UnknownToken(
            " b".to_string()
        )))
    );
}

#[test]
fn errors_of_both_stages() {
    assert_eq!(
        try_to_expr_from("a & $b".to_string()).err(),
        Some(InputError::Lexer(LexerErrorCode::UnknownToken(
            "b".to_string()
        )))
    );
    assert_eq!(
        try_to_expr_from("a & | b".to_string()).err(),
        Some(InputError::Parser(ParseError::UnexpectedToken(Token::Op(
            Op::Or
        ))))
    );
    assert_eq!(
        try_to_expr_from("(a".to_string()).err(),
        Some(InputError::Parser(ParseError::UnexpectedToken(Token::Eof)))
    );
}

#[test]
fn reading_twice_gives_the_same_tree() {
    let first = try_to_expr_from("a & (b | !a)".to_string()).unwrap().unwrap();
    let second = try_to_expr_from("a & (b | !a)".to_string()).unwrap().unwrap();
    assert_eq!(first.0, second.0);
    assert_eq!(first.1.to_csv_string(), second.1.to_csv_string());
}

#[test]
fn errors_can_be_copied() {
    let error = try_to_expr_from("a & $b".to_string()).err().unwrap();
    assert_eq!(error.clone(), error);
    let error = try_to_expr_from("a b".to_string()).err().unwrap();
    assert_eq!(
        error.clone(),
        InputError::Parser(ParseError::UnexpectedToken(Token::Atom(Atom::Var(2))))
    );
}

#[test]
fn text_as_it_stands() {
    assert!(matches!(read_formula(""), Ok(None)));
    assert_eq!(
        read_formula(" \n").err(),
        Some(InputError::Parser(ParseError::UnexpectedToken(Token::Eof)))
    );
    let (tree, store) = read_formula(" b | a ").unwrap().unwrap();
    assert_eq!(
        tree,
        Expr::BiOp(
            Box::new(Expr::Atom(Atom::Var(1))),
            BiOp::Or,
            Box::new(Expr::Atom(Atom::Var(2)))
        )
    );
    assert_eq!(store.to_csv_string(), "1 b\n2 a\n");
    assert_eq!(
        read_formula("\u{a0}a").err(),
        Some(InputError::Lexer(LexerErrorCode::UnknownToken(
            "a".to_string()
        )))
    );
}
