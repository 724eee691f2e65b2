use tseitin::lexer::{lex, scan_next_token, LexerErrorCode, Token};
use tseitin::var::VarStore;
use tseitin::types::{Atom, Op};

#[test]
fn test_lexer() {
    let input = " aob_1 &(!Av1d | 1) | 0 \n".to_string();
    let (token_store, _) = lex(input).unwrap();

    let mut iter = token_store.iter();

    assert_eq!(*iter.next().unwrap(), Token::Atom(Atom::Var(1)));
    assert_eq!(*iter.next().unwrap(), Token::Op(Op::And));
    assert_eq!(*iter.next().unwrap(), Token::LeftBracket);
    assert_eq!(*iter.next().unwrap(), Token::Op(Op::Not));
    assert_eq!(*iter.next().unwrap(), Token::Atom(Atom::Var(2)));
    assert_eq!(*iter.next().unwrap(), Token::Op(Op::Or));
    assert_eq!(*iter.next().unwrap(), Token::Atom(Atom::True));
    assert_eq!(*iter.next().unwrap(), Token::RightBracket);
    assert_eq!(*iter.next().unwrap(), Token::Op(Op::Or));
    assert_eq!(*iter.next().unwrap(), Token::Atom(Atom::False));
}

fn tokens_of(text: &str) -> Vec<Token> {
    let (tokens, _) = lex(text.to_string()).unwrap();
    tokens.into_iter().collect()
}

#[test]
fn lexer_takes_every_token_to_the_end() {
    assert_eq!(tokens_of(" aob_1 &(!Av1d | 1) | 0 \n").len(), 10);
    assert_eq!(tokens_of("a"), vec![Token::Atom(Atom::Var(1))]);
}

#[test]
fn empty_and_blank_texts_have_no_tokens() {
    let (tokens, store) = lex(String::new()).unwrap();
    assert!(tokens.is_empty());
    assert_eq!(store.n_var(), 0);
    assert!(tokens_of(" \t\r\n \x0C").is_empty());
}

#[test]
fn indices_follow_first_occurrence() {
    let (tokens, store) = lex("b & a & b".to_string()).unwrap();
    let tokens: Vec<Token> = tokens.into_iter().collect();
    assert_eq!(
        tokens,
        vec![
            Token::Atom(Atom::Var(1)),
            Token::Op(Op::And),
            Token::Atom(Atom::Var(2)),
            Token::Op(Op::And),
            Token::Atom(Atom::Var(1)),
        ]
    );
    assert_eq!(store.get(&"b".to_string()), Some(1));
    assert_eq!(store.get(&"a".to_string()), Some(2));
    assert_eq!(store.n_var(), 2);
}

#[test]
fn names_run_over_letters_digits_and_underscores() {
    let (tokens, store) = lex("x_1y2__ Z9".to_string()).unwrap();
    assert_eq!(tokens.len(), 2);
    assert_eq!(store.get(&"x_1y2__".to_string()), Some(1));
    assert_eq!(store.get(&"Z9".to_string()), Some(2));
}

#[test]
fn digits_before_a_name_are_constants() {
    assert_eq!(
        tokens_of("10a1"),
        vec![
            Token::Atom(Atom::True),
            Token::Atom(Atom::False),
            Token::Atom(Atom::Var(1)),
        ]
    );
}

#[test]
fn symbols_need_no_space_between_them() {
    assert_eq!(
        tokens_of("!(a|b)&c"),
        vec![
            Token::Op(Op::Not),
            Token::LeftBracket,
            Token::Atom(Atom::Var(1)),
            Token::Op(Op::Or),
            Token::Atom(Atom::Var(2)),
            Token::RightBracket,
            Token::Op(Op::And),
            Token::Atom(Atom::Var(3)),
        ]
    );
}

#[test]
fn line_feeds_separate_like_blanks() {
    assert_eq!(
        tokens_of("a\n&\nb\n"),
        vec![
            Token::Atom(Atom::Var(1)),
            Token::Op(Op::And),
            Token::Atom(Atom::Var(2)),
        ]
    );
}

#[test]
fn unknown_character_gives_the_text_behind_it() {
    assert_eq!(
        lex("a & # b | c".to_string()).err(),
        Some(LexerErrorCode::UnknownToken(" b | c".to_string()))
    );
    assert_eq!(
        lex("a ?".to_string()).err(),
        Some(LexerErrorCode::UnknownToken(String::new()))
    );
    assert_eq!(
        lex("2".to_string()).err(),
        Some(LexerErrorCode::UnknownToken(String::new()))
    );
    assert_eq!(
        lex("_a".to_string()).err(),
        Some(LexerErrorCode::UnknownToken("a".to_string()))
    );
    assert_eq!(
        lex("\u{e9}t\u{e9}".to_string()).err(),
        Some(LexerErrorCode::UnknownToken("t\u{e9}".to_string()))
    );
}

#[test]
fn lexing_twice_gives_the_same() {
    let first = lex("a & (b | !a) & c1".to_string()).unwrap();
    let second = lex("a & (b | !a) & c1".to_string()).unwrap();
    assert_eq!(first.0, second.0);
    assert_eq!(first.1.to_csv_string(), second.1.to_csv_string());
}

fn step(text: &str, from: usize, store: &mut VarStore) -> (Result<Token, LexerErrorCode>, usize) {
    let chars: Vec<char> = text.chars().collect();
    let mut pos = from;
    let result = scan_next_token(&chars, &mut pos, store);
    (result, pos)
}

#[test]
fn one_step_at_a_time() {
    let mut store = VarStore::new();
    let text = "  ab_1&( \u{e9}";
    assert_eq!(
        step(text, 0, &mut store),
        (Ok(Token::Atom(Atom::Var(1))), 6)
    );
    assert_eq!(store.get(&"ab_1".to_string()), Some(1));
    assert_eq!(step(text, 6, &mut store), (Ok(Token::Op(Op::And)), 7));
    assert_eq!(step(text, 7, &mut store), (Ok(Token::LeftBracket), 8));
    assert_eq!(
        step(text, 8, &mut store),
        (Err(LexerErrorCode::UnknownToken(String::new())), 10)
    );
    assert_eq!(
        step(text, 3, &mut store),
        (Ok(Token::Atom(Atom::Var(2))), 6)
    );
    assert_eq!(store.get(&"b_1".to_string()), Some(2));
    assert_eq!(store.n_var(), 2);
}

#[test]
fn step_at_the_end_finds_nothing() {
    let mut store = VarStore::new();
    assert_eq!(
        step("", 0, &mut store),
        (Err(LexerErrorCode::NextCharNotPeekable), 0)
    );
    assert_eq!(
        step("a \n\t", 1, &mut store),
        (Err(LexerErrorCode::NextCharNotPeekable), 4)
    );
    assert_eq!(
        step("a", 1, &mut store),
        (Err(LexerErrorCode::NextCharNotPeekable), 1)
    );
    assert_eq!(store.n_var(), 0);
}

#[test]
fn scenario_tokens() {
    let (tokens, store) = lex("a & (!b | 1)\n".to_string()).unwrap();
    let tokens: Vec<Token> = tokens.into_iter().collect();
    assert_eq!(
        tokens,
        vec![
            Token::Atom(Atom::Var(1)),
            Token::Op(Op::And),
            Token::LeftBracket,
            Token::Op(Op::Not),
            Token::Atom(Atom::Var(2)),
            Token::Op(Op::Or),
            Token::Atom(Atom::True),
            Token::RightBracket,
        ]
    );
    assert_eq!(store.to_csv_string(), "1 a\n2 b\n");
}
