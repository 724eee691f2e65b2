//! Parsing by binding powers: from the tokens of a formula to its tree.

use crate::expr::{occurs, vars_within, BiOp, Expr};
use crate::lexer::{are_formula_tokens, tokens_within, Token};
use crate::types::Op;
use std::collections::VecDeque;
use vstd::prelude::*;

verus! {

/// Why a sequence of tokens is no formula.
#[derive(Clone, Copy, Debug, PartialEq, Eq, Structural)]
pub enum ParseError {
    /// The token stands where no formula can go on with it; `Eof` where the
    /// tokens end too early.
    UnexpectedToken(Token),
}

/// How strongly `token` binds as a binary connective, to its left and to its
/// right: `&` more than `|`, and each more to its right than to its left, so
/// that a chain of one connective groups from the left.
pub open spec fn infix_power(token: Op) -> Option<(u8, u8)> {
    match token {
        Op::And => Some((3, 4)),
        Op::Or => Some((1, 2)),
        _ => None,
    }
}

/// How strongly `token` binds to its right as a prefix: `!` more than any
/// binary connective.
pub open spec fn prefix_power(token: Op) -> Option<((), u8)> {
    match token {
        Op::Not => Some(((), 5)),
        _ => None,
    }
}

/// The binary connective that `token` stands for, where it stands for one.
pub open spec fn connective(token: Op) -> BiOp {
    if token == Op::And {
        BiOp::And
    } else {
        BiOp::Or
    }
}

/// The first of `tokens`, or `Eof` where there is none.
pub open spec fn front(tokens: Seq<Token>) -> Token {
    if tokens.len() > 0 {
        tokens[0]
    } else {
        Token::Eof
    }
}

/// `tokens` without the first of them.
pub open spec fn behind(tokens: Seq<Token>) -> Seq<Token> {
    if tokens.len() > 0 {
        tokens.drop_first()
    } else {
        tokens
    }
}

/// What the parser makes of some tokens: a tree or an error, and the tokens
/// that it has not taken.
pub struct Parsed {
    pub tree: Result<Expr, ParseError>,
    pub rest: Seq<Token>,
}

/// What the parser makes of `tokens` where only connectives that bind to
/// their left with at least `min_bp` may go on the formula: one operand, and
/// then what [`parse_tail`] makes of it. An operand is an atom, a `!` with
/// its operand, or a formula in brackets. The first error ends the parsing,
/// with the tokens that are left at that point.
///
/// The comparisons of lengths, here and in [`parse_tail`], are what makes
/// the two definitions well-founded. They always hold: see
/// [`lemma_parse_rest`].
pub open spec fn parse(tokens: Seq<Token>, min_bp: u8) -> Parsed
    decreases tokens.len(), 1nat,
{
    let rest = behind(tokens);
    match front(tokens) {
        Token::Atom(x) => parse_tail(Expr::Atom(x), rest, min_bp),
        Token::LeftBracket => {
            let inner = parse(rest, 0);
            match inner.tree {
                Ok(lhs) if inner.rest.len() < tokens.len() => {
                    if front(inner.rest) == Token::RightBracket {
                        parse_tail(lhs, behind(inner.rest), min_bp)
                    } else {
                        Parsed {
                            tree: Err(ParseError::UnexpectedToken(front(inner.rest))),
                            rest: behind(inner.rest),
                        }
                    }
                },
                _ => inner,
            }
        },
        Token::Op(op) => match prefix_power(op) {
            Some((_, r_bp)) => {
                let inner = parse(rest, r_bp);
                match inner.tree {
                    Ok(rhs) if inner.rest.len() < tokens.len() => parse_tail(
                        Expr::Not(Box::new(rhs)),
                        inner.rest,
                        min_bp,
                    ),
                    _ => inner,
                }
            },
            None => Parsed { tree: Err(ParseError::UnexpectedToken(front(tokens))), rest },
        },
        t => Parsed { tree: Err(ParseError::UnexpectedToken(t)), rest },
    }
}

/// What the parser makes of `tokens` after the operand `lhs`. At the end of
/// the tokens, a `)`, a `!`, or a connective that binds to its left with
/// less than `min_bp`, the formula is `lhs` and the tokens stay. Any other
/// connective is taken with the formula to its right, and the two go on as
/// one operand.
pub open spec fn parse_tail(lhs: Expr, tokens: Seq<Token>, min_bp: u8) -> Parsed
    decreases tokens.len(), 0nat,
{
    match front(tokens) {
        Token::Eof | Token::RightBracket => Parsed { tree: Ok(lhs), rest: tokens },
        Token::Op(op) => match infix_power(op) {
            Some((l_bp, r_bp)) if l_bp >= min_bp => {
                let right = parse(behind(tokens), r_bp);
                match right.tree {
                    Ok(rhs) if right.rest.len() < tokens.len() => parse_tail(
                        Expr::BiOp(Box::new(lhs), connective(op), Box::new(rhs)),
                        right.rest,
                        min_bp,
                    ),
                    _ => right,
                }
            },
            _ => Parsed { tree: Ok(lhs), rest: tokens },
        },
        t => Parsed { tree: Err(ParseError::UnexpectedToken(t)), rest: tokens },
    }
}

/// A parser over a queue of tokens, which it takes from the front.
pub struct Parser {
    input: VecDeque<Token>,
}

impl View for Parser {
    type V = Seq<Token>;

    /// The tokens that the parser has not taken yet.
    closed spec fn view(&self) -> Seq<Token> {
        self.input@
    }
}

impl Parser {
    /// A parser over the tokens of `input`.
    pub fn new(input: VecDeque<Token>) -> (parser: Parser)
        ensures
            parser@ == input@,
    {
        Parser { input }
    }

    /// Parses one formula from the front of the tokens, as far as connectives
    /// that bind to their left with at least `min_bp` carry it, and takes its
    /// tokens from the queue. Where the tokens are no formula, the error holds
    /// the token at which that showed.
    pub fn process(&mut self, min_bp: u8) -> (result: Result<Expr, ParseError>)
        ensures
            result == parse(old(self)@, min_bp).tree,
            final(self)@ == parse(old(self)@, min_bp).rest,
        decreases old(self)@.len(),
    {
        let ghost tokens = self@;
        let val = self.next();
        let mut lhs = match val {
            Token::Atom(x) => Expr::Atom(x),
            Token::LeftBracket => {
                proof {
                    lemma_parse_rest(self@, 0);
                }
                let lhs = match self.process(0) {
                    Ok(lhs) => lhs,
                    Err(e) => {
                        return Err(e);
                    },
                };
                let closing = self.next();
                if closing != Token::RightBracket {
                    return Err(ParseError::UnexpectedToken(closing));
                }
                lhs
            },
            Token::Op(op) => match prefix_binding_power(op) {
                Some((_, r_bp)) => {
                    proof {
                        lemma_parse_rest(self@, r_bp);
                    }
                    match self.process(r_bp) {
                        Ok(rhs) => Expr::Not(Box::new(rhs)),
                        Err(e) => {
                            return Err(e);
                        },
                    }
                },
                None => {
                    return Err(ParseError::UnexpectedToken(val));
                },
            },
            t => {
                return Err(ParseError::UnexpectedToken(t));
            },
        };
        loop
            invariant
                tokens == old(self)@,
                self@.len() < tokens.len(),
                parse(tokens, min_bp) == parse_tail(lhs, self@, min_bp),
            ensures
                parse(tokens, min_bp) == (Parsed { tree: Ok(lhs), rest: self@ }),
            decreases self@.len(),
        {
            let op = match self.peek_front() {
                Token::Eof => {
                    break ;
                },
                Token::Op(op) => op,
                Token::RightBracket => {
                    break ;
                },
                t => {
                    return Err(ParseError::UnexpectedToken(t));
                },
            };
            if let Some((l_bp, r_bp)) = infix_binding_power(op) {
                if l_bp < min_bp {
                    break ;
                }
                self.next();
                proof {
                    lemma_parse_rest(self@, r_bp);
                }
                let rhs = match self.process(r_bp) {
                    Ok(rhs) => rhs,
                    Err(e) => {
                        return Err(e);
                    },
                };
                lhs = Expr::BiOp(
                    Box::new(lhs),
                    match op {
                        Op::And => BiOp::And,
                        _ => BiOp::Or,
                    },
                    Box::new(rhs),
                );
                continue ;
            }
            break ;
        }
        Ok(lhs)
    }

    /// Takes the first token from the queue; `Eof` where the queue is empty.
    fn next(&mut self) -> (token: Token)
        ensures
            token == front(old(self)@),
            final(self)@ == behind(old(self)@),
    {
        match self.input.pop_front() {
            Some(token) => token,
            None => Token::Eof,
        }
    }

    /// The first token of the queue, which stays there; `Eof` where the queue
    /// is empty.
    fn peek_front(&self) -> (token: Token)
        ensures
            token == front(self@),
    {
        if self.input.len() > 0 {
            self.input[0]
        } else {
            Token::Eof
        }
    }
}

/// How strongly `token` binds as a binary connective, to its left and to its
/// right; `None` where it is no binary connective.
pub fn infix_binding_power(token: Op) -> (powers: Option<(u8, u8)>)
    ensures
        powers == infix_power(token),
{
    match token {
        Op::And => Some((3, 4)),
        Op::Or => Some((1, 2)),
        _ => None,
    }
}

/// How strongly `token` binds to its right as a prefix; `None` where it is
/// no prefix.
pub fn prefix_binding_power(token: Op) -> (powers: Option<((), u8)>)
    ensures
        powers == prefix_power(token),
{
    match token {
        Op::Not => Some(((), 5)),
        _ => None,
    }
}

/// Whether `rest` is what is left of `tokens` when some are taken from the
/// front.
pub open spec fn is_rest_of(rest: Seq<Token>, tokens: Seq<Token>) -> bool {
    rest.len() <= tokens.len() && rest == tokens.skip(tokens.len() - rest.len())
}

/// What is left of what is left of some tokens is left of those tokens.
proof fn lemma_rest_of_rest(last: Seq<Token>, rest: Seq<Token>, tokens: Seq<Token>)
    requires
        is_rest_of(last, rest),
        is_rest_of(rest, tokens),
    ensures
        is_rest_of(last, tokens),
{
    assert(tokens.skip(tokens.len() - rest.len()).skip(rest.len() - last.len()) == tokens.skip(
        tokens.len() - last.len(),
    ));
}

/// The tokens behind the first are left of the tokens.
proof fn lemma_rest_behind(tokens: Seq<Token>)
    ensures
        is_rest_of(behind(tokens), tokens),
        is_rest_of(tokens, tokens),
{
    assert(tokens.skip(0) == tokens);
}

/// The parser takes its tokens from the front of the sequence and leaves the
/// others as they are. Of tokens that there are it takes one at least.
pub proof fn lemma_parse_rest(tokens: Seq<Token>, min_bp: u8)
    ensures
        is_rest_of(parse(tokens, min_bp).rest, tokens),
        tokens.len() > 0 ==> parse(tokens, min_bp).rest.len() < tokens.len(),
    decreases tokens.len(), 1nat,
{
    let rest = behind(tokens);
    lemma_rest_behind(tokens);
    match front(tokens) {
        Token::Atom(x) => {
            lemma_parse_tail_rest(Expr::Atom(x), rest, min_bp);
            lemma_rest_of_rest(parse(tokens, min_bp).rest, rest, tokens);
        },
        Token::LeftBracket => {
            lemma_parse_rest(rest, 0);
            let inner = parse(rest, 0);
            lemma_rest_of_rest(inner.rest, rest, tokens);
            if inner.tree is Ok {
                let lhs = inner.tree->Ok_0;
                lemma_rest_behind(inner.rest);
                lemma_rest_of_rest(behind(inner.rest), inner.rest, tokens);
                lemma_parse_tail_rest(lhs, behind(inner.rest), min_bp);
                lemma_rest_of_rest(
                    parse_tail(lhs, behind(inner.rest), min_bp).rest,
                    behind(inner.rest),
                    tokens,
                );
            }
        },
        Token::Op(op) => match prefix_power(op) {
            Some((_, r_bp)) => {
                lemma_parse_rest(rest, r_bp);
                let inner = parse(rest, r_bp);
                lemma_rest_of_rest(inner.rest, rest, tokens);
                if inner.tree is Ok {
                    let operand = Expr::Not(Box::new(inner.tree->Ok_0));
                    lemma_parse_tail_rest(operand, inner.rest, min_bp);
                    lemma_rest_of_rest(
                        parse_tail(operand, inner.rest, min_bp).rest,
                        inner.rest,
                        tokens,
                    );
                }
            },
            None => {},
        },
        _ => {},
    }
}

/// Like [`lemma_parse_rest`], for what follows an operand.
pub proof fn lemma_parse_tail_rest(lhs: Expr, tokens: Seq<Token>, min_bp: u8)
    ensures
        is_rest_of(parse_tail(lhs, tokens, min_bp).rest, tokens),
    decreases tokens.len(), 0nat,
{
    lemma_rest_behind(tokens);
    match front(tokens) {
        Token::Op(op) => match infix_power(op) {
            Some((l_bp, r_bp)) => {
                if l_bp >= min_bp {
                    lemma_parse_rest(behind(tokens), r_bp);
                    let right = parse(behind(tokens), r_bp);
                    lemma_rest_of_rest(right.rest, behind(tokens), tokens);
                    if right.tree is Ok {
                        let rhs = right.tree->Ok_0;
                        let joined = Expr::BiOp(Box::new(lhs), connective(op), Box::new(rhs));
                        lemma_parse_tail_rest(joined, right.rest, min_bp);
                        lemma_rest_of_rest(
                            parse_tail(joined, right.rest, min_bp).rest,
                            right.rest,
                            tokens,
                        );
                    }
                }
            },
            None => {},
        },
        _ => {},
    }
}

/// The token of a binary connective.
pub open spec fn token_of(op: BiOp) -> Token {
    match op {
        BiOp::And => Token::Op(Op::And),
        BiOp::Or => Token::Op(Op::Or),
    }
}

/// How strongly a binary connective binds to its left.
pub open spec fn left_power(op: BiOp) -> u8 {
    match op {
        BiOp::And => 3,
        BiOp::Or => 1,
    }
}

/// How strongly a binary connective binds to its right.
pub open spec fn right_power(op: BiOp) -> u8 {
    match op {
        BiOp::And => 4,
        BiOp::Or => 2,
    }
}

/// `tokens` in brackets.
pub open spec fn bracketed(tokens: Seq<Token>) -> Seq<Token> {
    seq![Token::LeftBracket] + tokens + seq![Token::RightBracket]
}

/// One way to write `e` as tokens: with every argument of a connective in
/// brackets.
pub open spec fn written(e: Expr) -> Seq<Token>
    decreases e,
{
    match e {
        Expr::Atom(x) => seq![Token::Atom(x)],
        Expr::Not(inner) => seq![Token::Op(Op::Not)] + bracketed(written(*inner)),
        Expr::BiOp(left, op, right) => bracketed(written(*left)) + seq![token_of(op)] + bracketed(
            written(*right),
        ),
    }
}

/// The way `e` is written with no bracket more than needed, where only
/// connectives that bind to their left with at least `min_bp` may stand
/// outside brackets: the left argument of a connective is written for the
/// connective's left binding power and the right one for its right binding
/// power, the operand of `!` for that of `!`, and a formula whose connective
/// binds too weakly for its place is put in brackets.
pub open spec fn shown(e: Expr, min_bp: u8) -> Seq<Token>
    decreases e, min_bp,
{
    match e {
        Expr::Atom(x) => seq![Token::Atom(x)],
        Expr::Not(inner) => seq![Token::Op(Op::Not)] + shown(*inner, 5),
        Expr::BiOp(left, op, right) => {
            if left_power(op) >= min_bp {
                shown(*left, left_power(op)) + seq![token_of(op)] + shown(*right, right_power(op))
            } else {
                bracketed(shown(e, 0))
            }
        },
    }
}

/// Whether the formula `e`, written for `min_bp`, ends where `rest` begins:
/// the tokens end there, a `)` follows, or a binary connective follows which,
/// where `e` stands with its own connective outside brackets, binds to its
/// left less than the connective of `e` binds to its right.
pub open spec fn ends_before(e: Expr, min_bp: u8, rest: Seq<Token>) -> bool {
    match front(rest) {
        Token::Eof | Token::RightBracket | Token::Op(Op::Or) => true,
        Token::Op(Op::And) => e matches Expr::BiOp(_, op, _) ==> left_power(op) < min_bp || 3
            < right_power(op),
        _ => false,
    }
}

/// Behind an operand, the parser stops where the tokens end or a `)` follows.
proof fn lemma_tail_stops(lhs: Expr, rest: Seq<Token>, level: u8)
    requires
        front(rest) == Token::Eof || front(rest) == Token::RightBracket || (front(rest)
            matches Token::Op(op) && infix_power(op) matches Some((l_bp, _)) && l_bp < level),
    ensures
        parse_tail(lhs, rest, level) == (Parsed { tree: Ok(lhs), rest }),
{
}

/// An atom is an operand.
proof fn lemma_parse_atom(x: crate::types::Atom, rest: Seq<Token>, level: u8)
    ensures
        parse(seq![Token::Atom(x)] + rest, level) == parse_tail(Expr::Atom(x), rest, level),
{
    let tokens = seq![Token::Atom(x)] + rest;
    assert(behind(tokens) == rest);
}

/// A `!` before the tokens that are read as `inner` is read as `!inner`.
proof fn lemma_parse_not(inner: Expr, operand: Seq<Token>, rest: Seq<Token>, level: u8)
    requires
        parse(operand, 5) == (Parsed { tree: Ok(inner), rest }),
        rest.len() <= operand.len(),
    ensures
        parse(seq![Token::Op(Op::Not)] + operand, level) == parse_tail(
            Expr::Not(Box::new(inner)),
            rest,
            level,
        ),
{
    let tokens = seq![Token::Op(Op::Not)] + operand;
    assert(behind(tokens) == operand);
}

/// Brackets around the tokens that are read as `e` are read as `e`.
proof fn lemma_parse_brackets(e: Expr, inside: Seq<Token>, rest: Seq<Token>, level: u8)
    requires
        parse(inside + (seq![Token::RightBracket] + rest), 0) == (Parsed {
            tree: Ok(e),
            rest: seq![Token::RightBracket] + rest,
        }),
    ensures
        parse(bracketed(inside) + rest, level) == parse_tail(e, rest, level),
{
    let closing = seq![Token::RightBracket] + rest;
    let tokens = bracketed(inside) + rest;
    assert(behind(tokens) == inside + closing);
    assert(behind(closing) == rest);
}

/// Behind an operand, a connective that binds strongly enough is taken with
/// the formula to its right, and the two go on as one operand.
proof fn lemma_tail_takes(
    left: Expr,
    op: BiOp,
    right: Expr,
    second: Seq<Token>,
    rest: Seq<Token>,
    level: u8,
)
    requires
        level <= left_power(op),
        parse(second, right_power(op)) == (Parsed { tree: Ok(right), rest }),
        rest.len() <= second.len(),
    ensures
        parse_tail(left, seq![token_of(op)] + second, level) == parse_tail(
            Expr::BiOp(Box::new(left), op, Box::new(right)),
            rest,
            level,
        ),
{
    let tail = seq![token_of(op)] + second;
    assert(behind(tail) == second);
}

/// Every tree is the tree of its writing: the parser reads `written(e)` as
/// `e` and takes no token more, where the formula ends there (the tokens end,
/// or a `)` follows) and, for a binary connective at the root, the connective
/// binds to its left with `min_bp` at least.
pub proof fn lemma_parse_written(e: Expr, rest: Seq<Token>, min_bp: u8)
    requires
        front(rest) == Token::Eof || front(rest) == Token::RightBracket,
        e matches Expr::BiOp(_, op, _) ==> min_bp <= left_power(op),
    ensures
        parse(written(e) + rest, min_bp) == (Parsed { tree: Ok(e), rest }),
    decreases e, 0nat,
{
    lemma_tail_stops(e, rest, min_bp);
    match e {
        Expr::Atom(x) => {
            lemma_parse_atom(x, rest, min_bp);
        },
        Expr::Not(inner) => {
            let operand = bracketed(written(*inner)) + rest;
            assert(written(e) + rest == seq![Token::Op(Op::Not)] + operand);
            lemma_parse_bracketed(*inner, rest, 5);
            lemma_tail_stops(*inner, rest, 5);
            lemma_parse_not(*inner, operand, rest, min_bp);
        },
        Expr::BiOp(left, op, right) => {
            let second = bracketed(written(*right)) + rest;
            let tail = seq![token_of(op)] + second;
            assert(written(e) + rest == bracketed(written(*left)) + tail);
            lemma_parse_bracketed(*left, tail, min_bp);
            lemma_parse_bracketed(*right, rest, right_power(op));
            lemma_tail_stops(*right, rest, right_power(op));
            lemma_tail_takes(*left, op, *right, second, rest, min_bp);
        },
    }
}

/// A formula in brackets is read as the formula, and what follows the
/// closing bracket goes on from it.
proof fn lemma_parse_bracketed(e: Expr, rest: Seq<Token>, min_bp: u8)
    ensures
        parse(bracketed(written(e)) + rest, min_bp) == parse_tail(e, rest, min_bp),
    decreases e, 1nat,
{
    let closing = seq![Token::RightBracket] + rest;
    lemma_parse_written(e, closing, 0);
    lemma_parse_brackets(e, written(e), rest, min_bp);
}

/// The parser reads the tokens of a formula that is written with no bracket
/// more than needed as that formula, and goes on behind it as it does behind
/// any operand.
pub proof fn lemma_parse_shown_tail(e: Expr, min_bp: u8, rest: Seq<Token>, level: u8)
    requires
        ends_before(e, min_bp, rest),
        e matches Expr::BiOp(_, op, _) ==> left_power(op) < min_bp || level <= left_power(op),
    ensures
        parse(shown(e, min_bp) + rest, level) == parse_tail(e, rest, level),
    decreases e, min_bp,
{
    match e {
        Expr::Atom(x) => {
            lemma_parse_atom(x, rest, level);
        },
        Expr::Not(inner) => {
            let operand = shown(*inner, 5) + rest;
            assert(shown(e, min_bp) + rest == seq![Token::Op(Op::Not)] + operand);
            lemma_parse_shown_tail(*inner, 5, rest, 5);
            lemma_tail_stops(*inner, rest, 5);
            lemma_parse_not(*inner, operand, rest, level);
        },
        Expr::BiOp(left, op, right) => {
            if left_power(op) >= min_bp {
                let second = shown(*right, right_power(op)) + rest;
                let tail = seq![token_of(op)] + second;
                assert(shown(e, min_bp) + rest == shown(*left, left_power(op)) + tail);
                lemma_parse_shown_tail(*left, left_power(op), tail, level);
                lemma_parse_shown_tail(*right, right_power(op), rest, right_power(op));
                lemma_tail_stops(*right, rest, right_power(op));
                lemma_tail_takes(*left, op, *right, second, rest, level);
            } else {
                let closing = seq![Token::RightBracket] + rest;
                lemma_parse_shown_tail(e, 0, closing, 0);
                lemma_tail_stops(e, closing, 0);
                lemma_parse_brackets(e, shown(e, 0), rest, level);
            }
        },
    }
}

/// Every tree is the tree of its natural writing: the parser reads the
/// tokens of `e`, written with no bracket more than the binding powers ask
/// for, as `e`, and takes no token more, where the formula ends there.
pub proof fn lemma_parse_shown(e: Expr, rest: Seq<Token>)
    requires
        front(rest) == Token::Eof || front(rest) == Token::RightBracket,
    ensures
        parse(shown(e, 0) + rest, 0) == (Parsed { tree: Ok(e), rest }),
{
    lemma_parse_shown_tail(e, 0, rest, 0);
    lemma_tail_stops(e, rest, 0);
}

/// Tokens of formulas, put together, are tokens of a formula.
proof fn lemma_formula_tokens_concat(first: Seq<Token>, second: Seq<Token>, n_var: nat)
    requires
        are_formula_tokens(first, n_var),
        are_formula_tokens(second, n_var),
    ensures
        are_formula_tokens(first + second, n_var),
{
    let both = first + second;
    assert forall|i: int| 0 <= i < both.len() implies #[trigger] both[i] != Token::Eof && (
    both[i] matches Token::Atom(crate::types::Atom::Var(x)) ==> 1 <= x <= n_var) by {
        if i < first.len() {
            assert(both[i] == first[i]);
        } else {
            assert(both[i] == second[i - first.len()]);
        }
    }
}

/// The natural writing of a formula over `1..=n_var` is made of tokens of a
/// formula over `1..=n_var`.
pub proof fn lemma_shown_tokens(e: Expr, min_bp: u8, n_var: nat)
    requires
        vars_within(e, n_var),
    ensures
        are_formula_tokens(shown(e, min_bp), n_var),
    decreases e, min_bp,
{
    match e {
        Expr::Atom(x) => {},
        Expr::Not(inner) => {
            lemma_shown_tokens(*inner, 5, n_var);
            lemma_formula_tokens_concat(seq![Token::Op(Op::Not)], shown(*inner, 5), n_var);
        },
        Expr::BiOp(left, op, right) => {
            if left_power(op) >= min_bp {
                lemma_shown_tokens(*left, left_power(op), n_var);
                lemma_shown_tokens(*right, right_power(op), n_var);
                lemma_formula_tokens_concat(
                    shown(*left, left_power(op)),
                    seq![token_of(op)],
                    n_var,
                );
                lemma_formula_tokens_concat(
                    shown(*left, left_power(op)) + seq![token_of(op)],
                    shown(*right, right_power(op)),
                    n_var,
                );
            } else {
                lemma_shown_tokens(e, 0, n_var);
                lemma_formula_tokens_concat(seq![Token::LeftBracket], shown(e, 0), n_var);
                lemma_formula_tokens_concat(
                    seq![Token::LeftBracket] + shown(e, 0),
                    seq![Token::RightBracket],
                    n_var,
                );
            }
        },
    }
}

/// The variables of a tree are among those of the tokens that it was parsed
/// from.
pub proof fn lemma_parse_within(tokens: Seq<Token>, min_bp: u8, n_var: nat)
    requires
        tokens_within(tokens, n_var),
    ensures
        parse(tokens, min_bp).tree matches Ok(e) ==> vars_within(e, n_var),
        tokens_within(parse(tokens, min_bp).rest, n_var),
    decreases tokens.len(), 1nat,
{
    let rest = behind(tokens);
    lemma_parse_rest(tokens, min_bp);
    match front(tokens) {
        Token::Atom(x) => {
            lemma_parse_tail_within(Expr::Atom(x), rest, min_bp, n_var);
        },
        Token::LeftBracket => {
            lemma_parse_within(rest, 0, n_var);
            let inner = parse(rest, 0);
            lemma_parse_rest(rest, 0);
            if inner.tree is Ok && front(inner.rest) == Token::RightBracket {
                lemma_parse_tail_within(inner.tree->Ok_0, behind(inner.rest), min_bp, n_var);
            }
        },
        Token::Op(op) => match prefix_power(op) {
            Some((_, r_bp)) => {
                lemma_parse_within(rest, r_bp, n_var);
                let inner = parse(rest, r_bp);
                lemma_parse_rest(rest, r_bp);
                if inner.tree is Ok {
                    lemma_parse_tail_within(
                        Expr::Not(Box::new(inner.tree->Ok_0)),
                        inner.rest,
                        min_bp,
                        n_var,
                    );
                }
            },
            None => {},
        },
        _ => {},
    }
}

/// Like [`lemma_parse_within`], for what follows an operand.
pub proof fn lemma_parse_tail_within(lhs: Expr, tokens: Seq<Token>, min_bp: u8, n_var: nat)
    requires
        vars_within(lhs, n_var),
        tokens_within(tokens, n_var),
    ensures
        parse_tail(lhs, tokens, min_bp).tree matches Ok(e) ==> vars_within(e, n_var),
        tokens_within(parse_tail(lhs, tokens, min_bp).rest, n_var),
    decreases tokens.len(), 0nat,
{
    lemma_parse_tail_rest(lhs, tokens, min_bp);
    match front(tokens) {
        Token::Op(op) => match infix_power(op) {
            Some((l_bp, r_bp)) => {
                if l_bp >= min_bp {
                    lemma_parse_within(behind(tokens), r_bp, n_var);
                    lemma_parse_rest(behind(tokens), r_bp);
                    let right = parse(behind(tokens), r_bp);
                    if right.tree is Ok {
                        let rhs = right.tree->Ok_0;
                        let joined = Expr::BiOp(Box::new(lhs), connective(op), Box::new(rhs));
                        lemma_parse_tail_within(joined, right.rest, min_bp, n_var);
                    }
                }
            },
            None => {},
        },
        _ => {},
    }
}

/// Whether the variable `v` is among the tokens that are taken from `tokens`
/// where `rest` is left of them.
pub open spec fn takes_var(tokens: Seq<Token>, rest: Seq<Token>, v: usize) -> bool {
    exists|i: int|
        0 <= i < tokens.len() - rest.len() && #[trigger] tokens[i] == Token::Atom(
            crate::types::Atom::Var(v),
        )
}

/// A variable that is taken from some tokens is taken from them, or from
/// what is left of them, where more are taken.
proof fn lemma_takes_var_split(tokens: Seq<Token>, rest: Seq<Token>, last: Seq<Token>, v: usize)
    requires
        is_rest_of(rest, tokens),
        is_rest_of(last, rest),
        takes_var(tokens, last, v),
    ensures
        takes_var(tokens, rest, v) || takes_var(rest, last, v),
{
    let i = choose|i: int|
        0 <= i < tokens.len() - last.len() && #[trigger] tokens[i] == Token::Atom(
            crate::types::Atom::Var(v),
        );
    let taken = tokens.len() - rest.len();
    if i >= taken {
        assert(rest[i - taken] == tokens[i]);
    }
}

/// Every variable among the tokens that the parser takes occurs in the tree
/// that it builds of them.
pub proof fn lemma_parse_occurs(tokens: Seq<Token>, min_bp: u8, v: usize)
    requires
        parse(tokens, min_bp).tree is Ok,
        takes_var(tokens, parse(tokens, min_bp).rest, v),
    ensures
        occurs(parse(tokens, min_bp).tree->Ok_0, v as int),
    decreases tokens.len(), 1nat,
{
    let rest = behind(tokens);
    let last = parse(tokens, min_bp).rest;
    lemma_rest_behind(tokens);
    lemma_parse_rest(tokens, min_bp);
    match front(tokens) {
        Token::Atom(x) => {
            lemma_parse_tail_rest(Expr::Atom(x), rest, min_bp);
            lemma_takes_var_split(tokens, rest, last, v);
            lemma_parse_tail_occurs(Expr::Atom(x), rest, min_bp, v);
        },
        Token::LeftBracket => {
            let inner = parse(rest, 0);
            let closed = behind(inner.rest);
            lemma_parse_rest(rest, 0);
            lemma_rest_behind(inner.rest);
            lemma_rest_of_rest(inner.rest, rest, tokens);
            lemma_rest_of_rest(closed, inner.rest, tokens);
            lemma_parse_tail_rest(inner.tree->Ok_0, closed, min_bp);
            lemma_takes_var_split(tokens, closed, last, v);
            if takes_var(tokens, closed, v) {
                lemma_takes_var_split(tokens, inner.rest, closed, v);
                lemma_takes_var_split(tokens, rest, inner.rest, v);
                lemma_parse_occurs(rest, 0, v);
            }
            lemma_parse_tail_occurs(inner.tree->Ok_0, closed, min_bp, v);
        },
        Token::Op(op) => match prefix_power(op) {
            Some((_, r_bp)) => {
                let inner = parse(rest, r_bp);
                lemma_parse_rest(rest, r_bp);
                lemma_rest_of_rest(inner.rest, rest, tokens);
                let operand = Expr::Not(Box::new(inner.tree->Ok_0));
                lemma_parse_tail_rest(operand, inner.rest, min_bp);
                lemma_takes_var_split(tokens, inner.rest, last, v);
                if takes_var(tokens, inner.rest, v) {
                    lemma_takes_var_split(tokens, rest, inner.rest, v);
                    lemma_parse_occurs(rest, r_bp, v);
                }
                lemma_parse_tail_occurs(operand, inner.rest, min_bp, v);
            },
            None => {},
        },
        _ => {},
    }
}

/// Like [`lemma_parse_occurs`], for what follows an operand: what occurs in
/// the operand occurs in the tree, too.
pub proof fn lemma_parse_tail_occurs(lhs: Expr, tokens: Seq<Token>, min_bp: u8, v: usize)
    requires
        parse_tail(lhs, tokens, min_bp).tree is Ok,
        occurs(lhs, v as int) || takes_var(tokens, parse_tail(lhs, tokens, min_bp).rest, v),
    ensures
        occurs(parse_tail(lhs, tokens, min_bp).tree->Ok_0, v as int),
    decreases tokens.len(), 0nat,
{
    let last = parse_tail(lhs, tokens, min_bp).rest;
    lemma_rest_behind(tokens);
    lemma_parse_tail_rest(lhs, tokens, min_bp);
    match front(tokens) {
        Token::Op(op) => match infix_power(op) {
            Some((l_bp, r_bp)) => {
                if l_bp >= min_bp {
                    let rest = behind(tokens);
                    let right = parse(rest, r_bp);
                    lemma_parse_rest(rest, r_bp);
                    lemma_rest_of_rest(right.rest, rest, tokens);
                    let rhs = right.tree->Ok_0;
                    let joined = Expr::BiOp(Box::new(lhs), connective(op), Box::new(rhs));
                    lemma_parse_tail_rest(joined, right.rest, min_bp);
                    if !occurs(lhs, v as int) {
                        lemma_takes_var_split(tokens, right.rest, last, v);
                        if takes_var(tokens, right.rest, v) {
                            lemma_takes_var_split(tokens, rest, right.rest, v);
                            lemma_parse_occurs(rest, r_bp, v);
                        }
                    }
                    lemma_parse_tail_occurs(joined, right.rest, min_bp, v);
                }
            },
            None => {},
        },
        _ => {},
    }
}

} // verus!
