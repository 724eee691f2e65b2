//! From the text of a formula to its tree and the registry of its variables.

use crate::algorithm::{aux_count, encoding, lemma_encoding_references_all};
use crate::cnf::referenced;
use crate::expr::{occurs, vars_within, Expr};
use crate::lexer::{
    is_name, lemma_lex_from_covers, lemma_lex_from_within, lemma_lex_spelled, lex, lex_from,
    lexed, spelled, Lexed, LexerErrorCode, Token,
};
use crate::parser::{
    lemma_parse_occurs, lemma_parse_shown, lemma_parse_within, lemma_shown_tokens, parse, shown,
    ParseError, Parsed, Parser,
};
use crate::types::Atom;
use crate::var::VarStore;
use vstd::prelude::*;

verus! {

/// Why a text is no formula.
#[derive(Debug, PartialEq, Eq)]
pub enum InputError {
    /// The text holds a character that starts no token.
    Lexer(LexerErrorCode),
    /// The tokens of the text are no formula.
    Parser(ParseError),
}

impl Clone for InputError {
    /// A copy of the error.
    fn clone(&self) -> (copy: Self)
        ensures
            copy == *self,
    {
        match self {
            InputError::Lexer(code) => InputError::Lexer(code.clone()),
            InputError::Parser(error) => InputError::Parser(*error),
        }
    }
}

/// `text` without the white space at its start and at its end, as
/// `str::trim` gives it.
pub uninterp spec fn trimmed(text: Seq<char>) -> Seq<char>;

/// `text` without the white space at its start and at its end.
///
/// Trusted: this is `str::trim`, which the standard library documents as
/// returning the slice with leading and trailing white space removed, white
/// space being what Unicode's property `White_Space` says. The contract only
/// gives that result its name.
#[verifier::external_body]
fn trim(text: &str) -> (inner: &str)
    ensures
        inner@ == trimmed(text@),
{
    text.trim()
}

/// What a text is read as.
pub enum Reading {
    /// Nothing: the text is empty.
    Blank,
    /// A formula, and the names of its variables by index.
    Formula(Expr, Seq<Seq<char>>),
    /// No tokens: the text that follows a character that starts no token.
    Unknown(Seq<char>),
    /// No formula: the error of the parser.
    Unparsed(ParseError),
}

/// What `text` is read as, as it stands: the tree of the formula that its
/// tokens start with, unless it is empty.
pub open spec fn reading(text: Seq<char>) -> Reading {
    if text.len() == 0 {
        Reading::Blank
    } else {
        match lexed(text) {
            Lexed::Unknown(rest) => Reading::Unknown(rest),
            Lexed::Tokens(tokens, names) => match parse(tokens, 0).tree {
                Ok(tree) => Reading::Formula(tree, names),
                Err(error) => Reading::Unparsed(error),
            },
        }
    }
}

/// Whether `result` says what `reading` is.
pub open spec fn is_reading(
    result: Result<Option<(Expr, VarStore)>, InputError>,
    reading: Reading,
) -> bool {
    match result {
        Ok(None) => reading == Reading::Blank,
        Ok(Some((tree, store))) => reading == Reading::Formula(tree, store@),
        Err(InputError::Lexer(LexerErrorCode::UnknownToken(rest))) => reading == Reading::Unknown(
            rest@,
        ),
        Err(InputError::Lexer(LexerErrorCode::NextCharNotPeekable)) => false,
        Err(InputError::Parser(error)) => reading == Reading::Unparsed(error),
    }
}

/// Reading is a function of the text: the same text is read as the same
/// tree, with the same registry, with or without the white space around it.
pub proof fn lemma_reading_deterministic(first: Seq<char>, second: Seq<char>)
    requires
        first == second,
    ensures
        reading(first) == reading(second),
        reading(trimmed(first)) == reading(trimmed(second)),
{
}

/// Every formula has a text that is read as that formula: the lexer, with a
/// registry that holds the names of the variables, reads the natural writing
/// of the formula as its tokens, and the parser reads these as the formula.
pub proof fn lemma_written_formula_is_read(e: Expr, names: Seq<Seq<char>>)
    requires
        names.no_duplicates(),
        names.len() <= usize::MAX,
        forall|i: int| 0 <= i < names.len() ==> is_name(#[trigger] names[i]),
        vars_within(e, names.len()),
    ensures
        lex_from(spelled(shown(e, 0), names), names) == Lexed::Tokens(shown(e, 0), names),
        parse(shown(e, 0), 0) == (Parsed { tree: Ok(e), rest: Seq::empty() }),
{
    lemma_shown_tokens(e, 0, names.len());
    lemma_lex_spelled(shown(e, 0), names);
    lemma_parse_shown(e, Seq::empty());
    assert(shown(e, 0) + Seq::<Token>::empty() == shown(e, 0));
}

/// Whether `text` is one formula and nothing more: the parser takes every
/// token of it.
pub open spec fn is_one_formula(text: Seq<char>) -> bool {
    lexed(text) matches Lexed::Tokens(tokens, names) && names.len() <= usize::MAX && parse(
        tokens,
        0,
    ).tree is Ok && parse(tokens, 0).rest.len() == 0
}

/// Where a text is one formula and nothing more, the registry holds the
/// variables of the formula and no others: each of them occurs in the tree.
pub proof fn lemma_one_formula_variables(text: Seq<char>)
    requires
        is_one_formula(text),
    ensures
        reading(text) matches Reading::Formula(tree, names) ==> {
            &&& vars_within(tree, names.len())
            &&& forall|v: int| 1 <= v <= names.len() ==> occurs(tree, v)
        },
{
    let tokens = lexed(text)->Tokens_0;
    let names = lexed(text)->Tokens_1;
    let tree = parse(tokens, 0).tree->Ok_0;
    lemma_lex_from_within(text, Seq::empty());
    lemma_parse_within(tokens, 0, names.len());
    assert forall|v: int| 1 <= v <= names.len() implies occurs(tree, v) by {
        lemma_lex_from_covers(text, Seq::empty(), v as usize);
        let i = choose|i: int|
            0 <= i < tokens.len() && tokens[i] == Token::Atom(Atom::Var(v as usize));
        assert(tokens[i] == Token::Atom(Atom::Var(v as usize)));
        lemma_parse_occurs(tokens, 0, v as usize);
    }
}

/// Where a text is one formula and nothing more, the clauses of its
/// transformation speak of as many variables as the registry holds in the
/// end: the number that the header of the DIMACS text gives.
pub proof fn lemma_one_formula_counts(text: Seq<char>)
    requires
        is_one_formula(text),
    ensures
        reading(text) matches Reading::Formula(tree, names) && referenced(
            encoding(tree, names.len()),
        ).len() == names.len() + aux_count(tree),
{
    lemma_one_formula_variables(text);
    let tokens = lexed(text)->Tokens_0;
    let names = lexed(text)->Tokens_1;
    lemma_encoding_references_all(parse(tokens, 0).tree->Ok_0, names.len());
}

/// Reads `input`, with the white space around it taken off, as a formula:
/// its tree and the registry of its variables, which holds every variable of
/// the tree; `None` where nothing but white space is there.
pub fn try_to_expr_from(input: String) -> (result: Result<Option<(Expr, VarStore)>, InputError>)
    ensures
        is_reading(result, reading(trimmed(input@))),
        result matches Ok(Some((tree, store))) ==> vars_within(tree, store@.len()),
{
    read_formula(trim(input.as_str()))
}

/// Reads `input`, as it stands, as a formula: its tree and the registry of
/// its variables, which holds every variable of the tree; `None` where the
/// text is empty.
pub fn read_formula(input: &str) -> (result: Result<Option<(Expr, VarStore)>, InputError>)
    ensures
        is_reading(result, reading(input@)),
        result matches Ok(Some((tree, store))) ==> vars_within(tree, store@.len()),
{
    if input.is_empty() {
        return Ok(None);
    }
    let string = input.to_owned();
    let (token, var_store) = match lex(string) {
        Ok(lexed) => lexed,
        Err(code) => {
            return Err(InputError::Lexer(code));
        },
    };
    proof {
        lemma_parse_within(token@, 0, var_store@.len());
    }
    let mut parser = Parser::new(token);
    match parser.process(0) {
        Ok(tree) => Ok(Some((tree, var_store))),
        Err(error) => Err(InputError::Parser(error)),
    }
}

} // verus!
