use std::collections::VecDeque;
use tseitin::expr::{BiOp, Expr};
use tseitin::lexer::{lex, Token};
use tseitin::parser::{infix_binding_power, prefix_binding_power, ParseError, Parser};
use tseitin::types::{Atom, Op};

#[test]
fn test_parser_1() {
    let input = " aob_1 & ( !Av1d | 1 ) | 0".to_string();
    let (token_store, _) = lex(input).unwrap();
    let mut parser = Parser::new(token_store);
    let ast = parser.process(0).unwrap();

    assert_eq!(
        ast,
        Expr::BiOp(
            Box::new(Expr::BiOp(
                Box::new(Expr::Atom(Atom::Var(1))),
                BiOp::And,
                Box::new(Expr::BiOp(
                    Box::new(Expr::Not(Box::new(Expr::Atom(Atom::Var(2))))),
                    BiOp::Or,
                    Box::new(Expr::Atom(Atom::True))
                ))
            )),
            BiOp::Or,
            Box::new(Expr::Atom(Atom::False))
        )
    );
}

#[test]
fn test_parser_2() {
    let input = " aB2_1 | !(Z1d & 0)".to_string();
    let (token_store, _) = lex(input).unwrap();
    println!("token_store {:?}", token_store.clone());
    let mut parser = Parser::new(token_store);
    let ast = parser.process(0).unwrap();

    assert_eq!(
        ast,
        Expr::BiOp(
            Box::new(Expr::Atom(Atom::Var(1))),
            BiOp::Or,
            Box::new(Expr::Not(Box::new(Expr::BiOp(
                Box::new(Expr::Atom(Atom::Var(2))),
                BiOp::And,
                Box::new(Expr::Atom(Atom::False))
            ))))
        )
    );
}

fn var(index: usize) -> Expr {
    Expr::Atom(Atom::Var(index))
}

fn and(left: Expr, right: Expr) -> Expr {
    Expr::BiOp(Box::new(left), BiOp::And, Box::new(right))
}

fn or(left: Expr, right: Expr) -> Expr {
    Expr::BiOp(Box::new(left), BiOp::Or, Box::new(right))
}

fn not(inner: Expr) -> Expr {
    Expr::Not(Box::new(inner))
}

fn parse(text: &str) -> Result<Expr, ParseError> {
    let (tokens, _) = lex(text.to_string()).unwrap();
    Parser::new(tokens).process(0)
}

#[test]
fn and_binds_tighter_than_or() {
    assert_eq!(parse("a | b & c"), Ok(or(var(1), and(var(2), var(3)))));
    assert_eq!(parse("a & b | c"), Ok(or(and(var(1), var(2)), var(3))));
}

#[test]
fn chains_group_from_the_left() {
    assert_eq!(parse("a & b & c"), Ok(and(and(var(1), var(2)), var(3))));
    assert_eq!(parse("a | b | c"), Ok(or(or(var(1), var(2)), var(3))));
}

#[test]
fn not_binds_tighter_than_both() {
    assert_eq!(parse("!a & b"), Ok(and(not(var(1)), var(2))));
    assert_eq!(parse("!a | b"), Ok(or(not(var(1)), var(2))));
    assert_eq!(parse("!!a"), Ok(not(not(var(1)))));
    assert_eq!(parse("!(a | b)"), Ok(not(or(var(1), var(2)))));
}

#[test]
fn brackets_group() {
    assert_eq!(parse("(a | b) & c"), Ok(and(or(var(1), var(2)), var(3))));
    assert_eq!(parse("a & (b & c)"), Ok(and(var(1), and(var(2), var(3)))));
    assert_eq!(parse("((a))"), Ok(var(1)));
}

#[test]
fn scenario_tree() {
    assert_eq!(
        parse("a & (!b | 1)\n"),
        Ok(and(var(1), or(not(var(2)), Expr::Atom(Atom::True))))
    );
}

#[test]
fn no_tokens_is_an_error() {
    assert_eq!(parse(""), Err(ParseError::UnexpectedToken(Token::Eof)));
    assert_eq!(parse("a &"), Err(ParseError::UnexpectedToken(Token::Eof)));
    assert_eq!(parse("!"), Err(ParseError::UnexpectedToken(Token::Eof)));
}

#[test]
fn operator_where_an_operand_belongs() {
    assert_eq!(
        parse("& a"),
        Err(ParseError::UnexpectedToken(Token::Op(Op::And)))
    );
    assert_eq!(
        parse("a | | b"),
        Err(ParseError::UnexpectedToken(Token::Op(Op::Or)))
    );
    assert_eq!(
        parse(")"),
        Err(ParseError::UnexpectedToken(Token::RightBracket))
    );
}

#[test]
fn operand_where_an_operator_belongs() {
    assert_eq!(
        parse("a b"),
        Err(ParseError::UnexpectedToken(Token::Atom(Atom::Var(2))))
    );
    assert_eq!(
        parse("a (b)"),
        Err(ParseError::UnexpectedToken(Token::LeftBracket))
    );
}

#[test]
fn missing_closing_bracket() {
    assert_eq!(parse("(a"), Err(ParseError::UnexpectedToken(Token::Eof)));
    assert_eq!(
        parse("(a ! b)"),
        Err(ParseError::UnexpectedToken(Token::Op(Op::Not)))
    );
}

#[test]
fn parsing_stops_before_what_is_no_part_of_the_formula() {
    let (tokens, _) = lex("a & b ) c".to_string()).unwrap();
    let mut parser = Parser::new(tokens);
    assert_eq!(parser.process(0), Ok(and(var(1), var(2))));
    assert_eq!(
        parser.process(0),
        Err(ParseError::UnexpectedToken(Token::RightBracket))
    );
    assert_eq!(parser.process(0), Ok(var(3)));
    assert_eq!(
        parser.process(0),
        Err(ParseError::UnexpectedToken(Token::Eof))
    );

    let (tokens, _) = lex("a ! b".to_string()).unwrap();
    let mut parser = Parser::new(tokens);
    assert_eq!(parser.process(0), Ok(var(1)));
    assert_eq!(parser.process(0), Ok(not(var(2))));
}

#[test]
fn minimum_binding_power_holds_connectives_back() {
    let (tokens, _) = lex("a | b & c".to_string()).unwrap();
    let mut parser = Parser::new(tokens);
    assert_eq!(parser.process(2), Ok(var(1)));

    let (tokens, _) = lex("a & b | c".to_string()).unwrap();
    let mut parser = Parser::new(tokens);
    assert_eq!(parser.process(3), Ok(and(var(1), var(2))));
    assert_eq!(
        parser.process(0),
        Err(ParseError::UnexpectedToken(Token::Op(Op::Or)))
    );
}

#[test]
fn end_token_in_the_queue_ends_the_formula() {
    let tokens: VecDeque<Token> = vec![
        Token::Atom(Atom::Var(1)),
        Token::Eof,
        Token::Atom(Atom::Var(2)),
    ]
    .into_iter()
    .collect();
    let mut parser = Parser::new(tokens);
    assert_eq!(parser.process(0), Ok(var(1)));
    assert_eq!(
        parser.process(0),
        Err(ParseError::UnexpectedToken(Token::Eof))
    );
    assert_eq!(parser.process(0), Ok(var(2)));
}

#[test]
fn binding_powers() {
    assert_eq!(infix_binding_power(Op::And), Some((3, 4)));
    assert_eq!(infix_binding_power(Op::Or), Some((1, 2)));
    assert_eq!(infix_binding_power(Op::Not), None);
    assert_eq!(prefix_binding_power(Op::Not), Some(((), 5)));
    assert_eq!(prefix_binding_power(Op::And), None);
    assert_eq!(prefix_binding_power(Op::Or), None);
}

#[test]
fn parsing_twice_gives_the_same() {
    assert_eq!(parse("a & (b | !a) | 0"), parse("a & (b | !a) | 0"));
}
