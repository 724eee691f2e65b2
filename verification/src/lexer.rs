//! Lexical analysis: from the text of a formula to its tokens and the
//! registry of its variables.

use crate::text::{chars_of, push_char};
use crate::types::{Atom, Op};
use crate::var::{lemma_with_name, with_name, VarStore};
use std::collections::VecDeque;
use vstd::prelude::*;

verus! {

/// Why a text could not be turned into tokens.
#[derive(Debug, PartialEq, Eq)]
pub enum LexerErrorCode {
    /// A character that starts no token was met; the text after it is kept.
    UnknownToken(String),
    /// The text ended where a token was looked for.
    NextCharNotPeekable,
}

impl Clone for LexerErrorCode {
    /// A copy of the error, with a copy of its text.
    fn clone(&self) -> (copy: Self)
        ensures
            copy == *self,
    {
        match self {
            LexerErrorCode::UnknownToken(rest) => LexerErrorCode::UnknownToken(rest.clone()),
            LexerErrorCode::NextCharNotPeekable => LexerErrorCode::NextCharNotPeekable,
        }
    }
}

/// A token of a formula.
#[derive(Clone, Copy, Debug, PartialEq, Eq, Structural)]
pub enum Token {
    Atom(Atom),
    Op(Op),
    LeftBracket,
    RightBracket,
    Eof,
}

/// Whether `c` is white space: a blank, a tab, a line feed, a form feed or a
/// carriage return.
pub open spec fn is_space(c: char) -> bool {
    c == ' ' || c == '\t' || c == '\n' || c == '\x0C' || c == '\r'
}

/// Whether `c` can start a variable's name: a letter of the ASCII alphabet.
pub open spec fn is_letter(c: char) -> bool {
    ('a' <= c && c <= 'z') || ('A' <= c && c <= 'Z')
}

/// Whether `c` can go on a variable's name: a letter, a digit or `_`.
pub open spec fn is_name_char(c: char) -> bool {
    is_letter(c) || ('0' <= c && c <= '9') || c == '_'
}

/// The number of white space characters that `text` starts with.
pub open spec fn spaces(text: Seq<char>) -> int
    decreases text.len(),
{
    if text.len() > 0 && is_space(text[0]) {
        1 + spaces(text.drop_first())
    } else {
        0
    }
}

/// The number of characters that `text` starts with and that can go on a
/// variable's name.
pub open spec fn name_len(text: Seq<char>) -> int
    decreases text.len(),
{
    if text.len() > 0 && is_name_char(text[0]) {
        1 + name_len(text.drop_first())
    } else {
        0
    }
}

/// The token for a character that is a token by itself. A line feed is read
/// as the end of the text; [`scan`] never comes to that, since a line feed is
/// white space (see [`lemma_scan_finds_no_end`]).
pub open spec fn symbol(c: char) -> Option<Token> {
    if c == '(' {
        Some(Token::LeftBracket)
    } else if c == ')' {
        Some(Token::RightBracket)
    } else if c == '&' {
        Some(Token::Op(Op::And))
    } else if c == '|' {
        Some(Token::Op(Op::Or))
    } else if c == '!' {
        Some(Token::Op(Op::Not))
    } else if c == '0' {
        Some(Token::Atom(Atom::False))
    } else if c == '1' {
        Some(Token::Atom(Atom::True))
    } else if c == '\n' {
        Some(Token::Eof)
    } else {
        None
    }
}

/// What one step of the lexer finds at the start of a text.
pub enum Scan {
    /// A token, the number of characters up to its end, and the names of the
    /// registry after it.
    Found(Token, int, Seq<Seq<char>>),
    /// Nothing but white space is left.
    End,
    /// A character that starts no token, and the text after it.
    Unknown(Seq<char>),
}

/// One step of the lexer on `text`, with a registry that holds `names`.
/// White space is passed over. A letter starts a name, which runs as far as
/// its characters go and is looked up or allocated in the registry. A symbol
/// is a token by itself. Any other character is unknown.
pub open spec fn scan(text: Seq<char>, names: Seq<Seq<char>>) -> Scan {
    let start = spaces(text);
    if start >= text.len() {
        Scan::End
    } else {
        let c = text[start];
        if is_letter(c) {
            let end = start + name_len(text.skip(start));
            let name = text.subrange(start, end);
            let grown = with_name(names, name);
            Scan::Found(Token::Atom(Atom::Var((grown.index_of(name) + 1) as usize)), end, grown)
        } else {
            match symbol(c) {
                Some(token) => Scan::Found(token, start + 1, names),
                None => Scan::Unknown(text.skip(start + 1)),
            }
        }
    }
}

/// What the lexer makes of a text.
pub enum Lexed {
    /// The tokens of the text and the names of the registry, by index.
    Tokens(Seq<Token>, Seq<Seq<char>>),
    /// The text that follows the first character that starts no token.
    Unknown(Seq<char>),
}

/// `lexed`, with `token` before its tokens if it has any.
pub open spec fn after_token(token: Token, lexed: Lexed) -> Lexed {
    match lexed {
        Lexed::Tokens(tokens, names) => Lexed::Tokens(seq![token] + tokens, names),
        Lexed::Unknown(rest) => lexed,
    }
}

/// What the lexer makes of `text` with a registry that holds `names`: the
/// tokens that the steps find one after the other, up to the end of the text.
pub open spec fn lex_from(text: Seq<char>, names: Seq<Seq<char>>) -> Lexed
    decreases text.len(),
{
    match scan(text, names) {
        Scan::End => Lexed::Tokens(Seq::empty(), names),
        Scan::Unknown(rest) => Lexed::Unknown(rest),
        Scan::Found(token, end, grown) => {
            if token == Token::Eof {
                Lexed::Tokens(Seq::empty(), grown)
            } else {
                proof {
                    lemma_scan_advances(text, names);
                }
                after_token(token, lex_from(text.skip(end), grown))
            }
        },
    }
}

/// What the lexer makes of `text`, starting with an empty registry.
pub open spec fn lexed(text: Seq<char>) -> Lexed {
    lex_from(text, Seq::empty())
}

/// Whether every variable among `tokens` is one of `1..=n_var`.
pub open spec fn tokens_within(tokens: Seq<Token>, n_var: nat) -> bool {
    forall|i: int|
        0 <= i < tokens.len() ==> (#[trigger] tokens[i] matches Token::Atom(Atom::Var(x)) ==> 1 <= x
            <= n_var)
}

/// `lexed`, with `tokens` before its tokens if it has any.
pub open spec fn tokens_before(tokens: Seq<Token>, lexed: Lexed) -> Lexed {
    match lexed {
        Lexed::Tokens(more, names) => Lexed::Tokens(tokens + more, names),
        Lexed::Unknown(rest) => lexed,
    }
}

/// Whether `c` is white space.
fn space(c: char) -> (yes: bool)
    ensures
        yes == is_space(c),
{
    c == ' ' || c == '\t' || c == '\n' || c == '\x0C' || c == '\r'
}

/// Whether `c` can start a variable's name.
fn letter(c: char) -> (yes: bool)
    ensures
        yes == is_letter(c),
{
    ('a' <= c && c <= 'z') || ('A' <= c && c <= 'Z')
}

/// Whether `c` can go on a variable's name.
fn name_char(c: char) -> (yes: bool)
    ensures
        yes == is_name_char(c),
{
    letter(c) || ('0' <= c && c <= '9') || c == '_'
}

/// The token for a character that is a token by itself.
fn symbol_token(c: char) -> (token: Option<Token>)
    ensures
        token == symbol(c),
{
    if c == '(' {
        Some(Token::LeftBracket)
    } else if c == ')' {
        Some(Token::RightBracket)
    } else if c == '&' {
        Some(Token::Op(Op::And))
    } else if c == '|' {
        Some(Token::Op(Op::Or))
    } else if c == '!' {
        Some(Token::Op(Op::Not))
    } else if c == '0' {
        Some(Token::Atom(Atom::False))
    } else if c == '1' {
        Some(Token::Atom(Atom::True))
    } else if c == '\n' {
        Some(Token::Eof)
    } else {
        None
    }
}

/// The characters of `chars` from `from` to `to`, as a string.
fn string_of(chars: &Vec<char>, from: usize, to: usize) -> (text: String)
    requires
        from <= to <= chars@.len(),
    ensures
        text@ == chars@.subrange(from as int, to as int),
{
    let mut text = String::new();
    let mut i = from;
    while i < to
        invariant
            from <= i <= to <= chars@.len(),
            text@ == chars@.subrange(from as int, i as int),
        decreases to - i,
    {
        push_char(&mut text, chars[i]);
        i += 1;
    }
    text
}

/// One step of the lexer on the characters of `chars` from `*pos` on, a
/// position within them: the next token, with `*pos` moved to its end, or the
/// reason why there is none. After an error `*pos` is at the end.
pub fn scan_next_token(chars: &Vec<char>, pos: &mut usize, var_list: &mut VarStore) -> (result: Result<
    Token,
    LexerErrorCode,
>)
    requires
        *old(pos) <= chars@.len(),
    ensures
        match scan(chars@.skip(*old(pos) as int), old(var_list)@) {
            Scan::Found(token, end, names) => {
                &&& result == Ok::<Token, LexerErrorCode>(token)
                &&& *final(pos) == *old(pos) + end
                &&& final(var_list)@ == names
            },
            Scan::End => {
                &&& result == Err::<Token, LexerErrorCode>(LexerErrorCode::NextCharNotPeekable)
                &&& *final(pos) == chars@.len()
                &&& final(var_list)@ == old(var_list)@
            },
            Scan::Unknown(rest) => {
                &&& result matches Err(LexerErrorCode::UnknownToken(unknown_token))
                &&& unknown_token@ == rest
                &&& *final(pos) == chars@.len()
                &&& final(var_list)@ == old(var_list)@
            },
        },
{
    let ghost text = chars@.skip(*pos as int);
    let begin = *pos;
    proof {
        lemma_spaces(text);
    }
    while *pos < chars.len() && space(chars[*pos])
        invariant
            begin <= *pos <= chars@.len(),
            text == chars@.skip(begin as int),
            spaces(text) == (*pos - begin) + spaces(chars@.skip(*pos as int)),
        decreases chars@.len() - *pos,
    {
        assert(chars@.skip(*pos as int).drop_first() == chars@.skip(*pos + 1));
        *pos += 1;
    }
    if *pos >= chars.len() {
        return Err(LexerErrorCode::NextCharNotPeekable);
    }
    let start = *pos;
    let next = chars[start];
    *pos += 1;
    if letter(next) {
        let ghost tail = chars@.skip(start as int);
        proof {
            lemma_name_len(tail);
            assert(tail.drop_first() == chars@.skip(start + 1));
        }
        while *pos < chars.len() && name_char(chars[*pos])
            invariant
                start < *pos <= chars@.len(),
                tail == chars@.skip(start as int),
                name_len(tail) == (*pos - start) + name_len(chars@.skip(*pos as int)),
            decreases chars@.len() - *pos,
        {
            assert(chars@.skip(*pos as int).drop_first() == chars@.skip(*pos + 1));
            *pos += 1;
        }
        let var_name = string_of(chars, start, *pos);
        assert(text.skip(start - begin) == tail);
        assert(var_name@ == text.subrange(start - begin, *pos - begin));
        let index = var_list.insert_and_get_index(var_name);
        Ok(Token::Atom(Atom::Var(index)))
    } else {
        match symbol_token(next) {
            Some(token) => Ok(token),
            None => {
                let unknown_token = string_of(chars, *pos, chars.len());
                *pos = chars.len();
                Err(LexerErrorCode::UnknownToken(unknown_token))
            },
        }
    }
}

/// The tokens of `input`, in the order of the text, and the registry of its
/// variables, which have their indices in the order in which the text first
/// names them. A character that starts no token ends the analysis with an
/// error that holds the text after that character.
pub fn lex(input: String) -> (result: Result<(VecDeque<Token>, VarStore), LexerErrorCode>)
    ensures
        match result {
            Ok((tokens, store)) => lexed(input@) == Lexed::Tokens(tokens@, store@) && tokens_within(
                tokens@,
                store@.len(),
            ),
            Err(LexerErrorCode::UnknownToken(unknown_token)) => lexed(input@) == Lexed::Unknown(
                unknown_token@,
            ),
            Err(LexerErrorCode::NextCharNotPeekable) => false,
        },
{
    let mut store = VecDeque::<Token>::new();
    let mut store_var = VarStore::new();
    let chars = chars_of(input.as_str());
    let mut pos: usize = 0;
    assert(chars@.skip(0) == input@);
    loop
        invariant_except_break
            lexed(input@) == tokens_before(store@, lex_from(chars@.skip(pos as int), store_var@)),
        invariant
            pos <= chars@.len(),
            chars@ == input@,
        ensures
            lexed(input@) == Lexed::Tokens(store@, store_var@),
        decreases chars@.len() - pos,
    {
        let ghost before = store@;
        proof {
            lemma_scan_advances(chars@.skip(pos as int), store_var@);
        }
        let ghost from = pos;
        let token_res = scan_next_token(&chars, &mut pos, &mut store_var);
        match token_res {
            Ok(token) => {
                match token {
                    Token::Eof => {
                        break ;
                    },
                    _ => {
                        store.push_back(token);
                        proof {
                            assert(chars@.skip(from as int).skip(pos - from) == chars@.skip(
                                pos as int,
                            ));
                            let next = lex_from(chars@.skip(pos as int), store_var@);
                            lemma_tokens_before(before, token, next);
                        }
                    },
                }
            },
            Err(LexerErrorCode::NextCharNotPeekable) => {
                break ;
            },
            Err(x) => {
                return Err(x);
            },
        }
    }
    proof {
        store_var.lemma_n_var_fits();
        lemma_lex_from_within(input@, Seq::empty());
    }
    Ok((store, store_var))
}

/// The white space at the start of a text lies within the text, and what
/// follows it is no white space.
pub proof fn lemma_spaces(text: Seq<char>)
    ensures
        0 <= spaces(text) <= text.len(),
        spaces(text) < text.len() ==> !is_space(text[spaces(text)]),
        forall|i: int| 0 <= i < spaces(text) ==> is_space(#[trigger] text[i]),
    decreases text.len(),
{
    if text.len() > 0 && is_space(text[0]) {
        lemma_spaces(text.drop_first());
        assert forall|i: int| 0 <= i < spaces(text) implies is_space(#[trigger] text[i]) by {
            if i > 0 {
                assert(text[i] == text.drop_first()[i - 1]);
            }
        }
    }
}

/// The start of a name lies within the text, and what follows it cannot go
/// on a name.
pub proof fn lemma_name_len(text: Seq<char>)
    ensures
        0 <= name_len(text) <= text.len(),
        name_len(text) < text.len() ==> !is_name_char(text[name_len(text)]),
        forall|i: int| 0 <= i < name_len(text) ==> is_name_char(#[trigger] text[i]),
    decreases text.len(),
{
    if text.len() > 0 && is_name_char(text[0]) {
        lemma_name_len(text.drop_first());
        assert forall|i: int| 0 <= i < name_len(text) implies is_name_char(#[trigger] text[i]) by {
            if i > 0 {
                assert(text[i] == text.drop_first()[i - 1]);
            }
        }
    }
}

/// A step that finds a token ends after at least one character, within the
/// text.
pub proof fn lemma_scan_advances(text: Seq<char>, names: Seq<Seq<char>>)
    ensures
        scan(text, names) matches Scan::Found(_, end, _) ==> 0 < end <= text.len(),
{
    lemma_spaces(text);
    let start = spaces(text);
    if start < text.len() {
        lemma_name_len(text.skip(start));
    }
}

/// No step of the lexer finds the end of the text as a token: a line feed
/// separates tokens as any white space does, and ends nothing.
pub proof fn lemma_scan_finds_no_end(text: Seq<char>, names: Seq<Seq<char>>)
    ensures
        scan(text, names) matches Scan::Found(token, _, _) ==> token != Token::Eof,
{
    lemma_spaces(text);
}

/// The lexer only adds to the registry: the names that were there keep
/// their indices. Every variable among its tokens is one that the registry
/// holds in the end.
pub proof fn lemma_lex_from_within(text: Seq<char>, names: Seq<Seq<char>>)
    ensures
        match lex_from(text, names) {
            Lexed::Tokens(tokens, last) => {
                &&& names.len() <= last.len()
                &&& last.take(names.len() as int) == names
                &&& last.len() <= usize::MAX ==> tokens_within(tokens, last.len())
            },
            Lexed::Unknown(_) => true,
        },
    decreases text.len(),
{
    assert(names.take(names.len() as int) == names);
    match scan(text, names) {
        Scan::Found(token, end, grown) => {
            if token != Token::Eof {
                lemma_scan_advances(text, names);
                lemma_lex_from_within(text.skip(end), grown);
                assert(grown.take(names.len() as int) == names);
                match lex_from(text.skip(end), grown) {
                    Lexed::Tokens(more, last) => {
                        let tokens = seq![token] + more;
                        assert(last.take(names.len() as int) == last.take(grown.len() as int).take(
                            names.len() as int,
                        ));
                        if last.len() <= usize::MAX {
                            assert forall|i: int| 0 <= i < tokens.len() implies (
                            #[trigger] tokens[i] matches Token::Atom(Atom::Var(x)) ==> 1 <= x
                                <= last.len()) by {
                                if i > 0 {
                                    assert(tokens[i] == more[i - 1]);
                                } else {
                                    let start = spaces(text);
                                    let name = text.subrange(start, end);
                                    lemma_with_name(names, name);
                                }
                            }
                        }
                    },
                    Lexed::Unknown(_) => {},
                }
            }
        },
        _ => {},
    }
}

/// Every variable that the lexer allocates is among its tokens.
pub proof fn lemma_lex_from_covers(text: Seq<char>, names: Seq<Seq<char>>, v: usize)
    requires
        lex_from(text, names) matches Lexed::Tokens(_, last) && names.len() < v <= last.len(),
    ensures
        lex_from(text, names) matches Lexed::Tokens(tokens, _) && tokens.contains(
            Token::Atom(Atom::Var(v)),
        ),
    decreases text.len(),
{
    match scan(text, names) {
        Scan::Found(token, end, grown) => {
            lemma_scan_advances(text, names);
            lemma_scan_finds_no_end(text, names);
            let more = lex_from(text.skip(end), grown)->Tokens_0;
            let tokens = seq![token] + more;
            if v <= grown.len() {
                let name = text.subrange(spaces(text), end);
                assert(grown == names.push(name));
                assert(grown[names.len() as int] == name);
                assert(grown.index_of(name) == names.len());
                assert(tokens[0] == token);
            } else {
                lemma_lex_from_covers(text.skip(end), grown, v);
                let i = choose|i: int| 0 <= i < more.len() && more[i] == Token::Atom(Atom::Var(v));
                assert(tokens[i + 1] == more[i]);
            }
        },
        _ => {},
    }
}

/// Whether `tokens` are tokens of a formula over `1..=n_var`: none is the end
/// of the text, and every variable among them is one of `1..=n_var`.
pub open spec fn are_formula_tokens(tokens: Seq<Token>, n_var: nat) -> bool {
    &&& tokens_within(tokens, n_var)
    &&& forall|i: int| 0 <= i < tokens.len() ==> #[trigger] tokens[i] != Token::Eof
}

/// Whether `name` can be the name of a variable: a letter, and after it
/// letters, digits and `_`.
pub open spec fn is_name(name: Seq<char>) -> bool {
    &&& name.len() > 0
    &&& is_letter(name[0])
    &&& forall|i: int| 0 <= i < name.len() ==> is_name_char(#[trigger] name[i])
}

/// The way `token` is written where the variables have the names `names`.
/// The end of the text has no writing.
pub open spec fn spelling(token: Token, names: Seq<Seq<char>>) -> Seq<char> {
    match token {
        Token::Atom(Atom::Var(x)) => names[x - 1],
        Token::Atom(Atom::True) => seq!['1'],
        Token::Atom(Atom::False) => seq!['0'],
        Token::Op(Op::And) => seq!['&'],
        Token::Op(Op::Or) => seq!['|'],
        Token::Op(Op::Not) => seq!['!'],
        Token::LeftBracket => seq!['('],
        Token::RightBracket => seq![')'],
        Token::Eof => Seq::empty(),
    }
}

/// The way `tokens` are written one after the other, a blank before each.
pub open spec fn spelled(tokens: Seq<Token>, names: Seq<Seq<char>>) -> Seq<char>
    decreases tokens.len(),
{
    if tokens.len() == 0 {
        Seq::empty()
    } else {
        seq![' '] + spelling(tokens[0], names) + spelled(tokens.drop_first(), names)
    }
}

/// A name that is followed by a character that cannot go on it, or by
/// nothing, runs as far as its own characters go.
proof fn lemma_name_len_of_name(name: Seq<char>, rest: Seq<char>, from: int)
    requires
        forall|i: int| 0 <= i < name.len() ==> is_name_char(#[trigger] name[i]),
        rest.len() == 0 || !is_name_char(rest[0]),
        0 <= from <= name.len(),
    ensures
        name_len((name + rest).skip(from)) == name.len() - from,
    decreases name.len() - from,
{
    let tail = (name + rest).skip(from);
    if from < name.len() {
        assert(tail[0] == name[from]);
        assert(tail.drop_first() == (name + rest).skip(from + 1));
        lemma_name_len_of_name(name, rest, from + 1);
    } else {
        assert(tail == rest);
    }
}

/// One step of the lexer on a blank, the writing of a token and what follows
/// finds that token and ends behind its writing, where what follows is
/// nothing or starts with a blank.
proof fn lemma_scan_spelt(token: Token, names: Seq<Seq<char>>, rest: Seq<char>)
    requires
        names.no_duplicates(),
        names.len() <= usize::MAX,
        forall|i: int| 0 <= i < names.len() ==> is_name(#[trigger] names[i]),
        token != Token::Eof,
        token matches Token::Atom(Atom::Var(x)) ==> 1 <= x <= names.len(),
        rest.len() == 0 || rest[0] == ' ',
    ensures
        scan(seq![' '] + spelling(token, names) + rest, names) == Scan::Found(
            token,
            spelling(token, names).len() as int + 1,
            names,
        ),
        (seq![' '] + spelling(token, names) + rest).skip(spelling(token, names).len() as int + 1)
            == rest,
{
    let spelt = spelling(token, names);
    let from_token = spelt + rest;
    let text = seq![' '] + spelt + rest;
    assert(text == seq![' '] + from_token);
    assert(text.drop_first() == from_token);
    assert(text.skip(1) == from_token);
    assert(from_token[0] == spelt[0]);
    assert(spaces(from_token) == 0);
    assert(spaces(text) == 1);
    match token {
        Token::Atom(Atom::Var(x)) => {
            let name = names[x - 1];
            lemma_name_len_of_name(name, rest, 0);
            assert(from_token.skip(0) == from_token);
            assert(text.subrange(1, name.len() as int + 1) == name);
            assert(names.contains(name));
            assert(names.index_of(name) == x - 1);
        },
        _ => {},
    }
}

/// The lexer reads what is written as what was written: from the writing of
/// tokens over variables whose names the registry holds, it gets the tokens
/// back, and the registry stays as it is.
pub proof fn lemma_lex_spelled(tokens: Seq<Token>, names: Seq<Seq<char>>)
    requires
        names.no_duplicates(),
        names.len() <= usize::MAX,
        forall|i: int| 0 <= i < names.len() ==> is_name(#[trigger] names[i]),
        are_formula_tokens(tokens, names.len()),
    ensures
        lex_from(spelled(tokens, names), names) == Lexed::Tokens(tokens, names),
    decreases tokens.len(),
{
    if tokens.len() > 0 {
        let later = tokens.drop_first();
        let rest = spelled(later, names);
        assert(tokens[0] != Token::Eof);
        lemma_scan_spelt(tokens[0], names, rest);
        assert forall|i: int| 0 <= i < later.len() implies #[trigger] later[i] != Token::Eof && (
        later[i] matches Token::Atom(Atom::Var(x)) ==> 1 <= x <= names.len()) by {
            assert(later[i] == tokens[i + 1]);
        }
        lemma_lex_spelled(later, names);
        assert(seq![tokens[0]] + later == tokens);
    } else {
        assert(tokens == Seq::<Token>::empty());
    }
}

/// A token before what is lexed, and tokens before that, are the tokens and
/// then the token before it.
proof fn lemma_tokens_before(tokens: Seq<Token>, token: Token, lexed: Lexed)
    ensures
        tokens_before(tokens, after_token(token, lexed)) == tokens_before(
            tokens.push(token),
            lexed,
        ),
{
    match lexed {
        Lexed::Tokens(more, names) => {
            assert(tokens + (seq![token] + more) == tokens.push(token) + more);
        },
        Lexed::Unknown(rest) => {},
    }
}

} // verus!
