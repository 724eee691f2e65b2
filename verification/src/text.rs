//! Text building: decimal numerals, and appending a character to a
//! `String`, which is taken on trust.

use vstd::prelude::*;

verus! {

/// The character that writes the digit `d`, for `0 <= d <= 9`.
pub open spec fn digit(d: int) -> char {
    ('0' as int + d) as char
}

/// The decimal numeral of `n`: no sign, no leading zero but for `0` itself.
pub open spec fn decimal(n: nat) -> Seq<char>
    decreases n,
{
    if n < 10 {
        seq![digit(n as int)]
    } else {
        decimal(n / 10).push(digit((n % 10) as int))
    }
}

/// The decimal numeral of a signed number: a leading `-` for a negative one.
pub open spec fn signed_decimal(i: int) -> Seq<char> {
    if i < 0 {
        seq!['-'] + decimal((-i) as nat)
    } else {
        decimal(i as nat)
    }
}

/// Whether `c` is one of the ten digits.
pub open spec fn is_digit(c: char) -> bool {
    '0' <= c && c <= '9'
}

/// The number of line feeds in `text`.
pub open spec fn line_feeds(text: Seq<char>) -> nat
    decreases text.len(),
{
    if text.len() == 0 {
        0
    } else if text.last() == '\n' {
        line_feeds(text.drop_last()) + 1
    } else {
        line_feeds(text.drop_last())
    }
}

/// A decimal numeral is made of digits, at least one.
pub proof fn lemma_decimal_digits(n: nat)
    ensures
        decimal(n).len() >= 1,
        forall|i: int| 0 <= i < decimal(n).len() ==> is_digit(#[trigger] decimal(n)[i]),
    decreases n,
{
    if n >= 10 {
        lemma_decimal_digits(n / 10);
    }
}

/// The line feeds of two texts put together are those of the one and those
/// of the other.
pub proof fn lemma_line_feeds_concat(first: Seq<char>, second: Seq<char>)
    ensures
        line_feeds(first + second) == line_feeds(first) + line_feeds(second),
    decreases second.len(),
{
    if second.len() == 0 {
        assert(first + second == first);
    } else {
        assert((first + second).drop_last() == first + second.drop_last());
        lemma_line_feeds_concat(first, second.drop_last());
    }
}

/// A line feed by itself is one line feed.
pub proof fn lemma_line_feeds_one()
    ensures
        line_feeds(seq!['\n']) == 1,
{
    reveal_with_fuel(line_feeds, 2);
}

/// A text in which no character is a line feed has none.
pub proof fn lemma_line_feeds_none(text: Seq<char>)
    requires
        forall|i: int| 0 <= i < text.len() ==> #[trigger] text[i] != '\n',
    ensures
        line_feeds(text) == 0,
    decreases text.len(),
{
    if text.len() > 0 {
        lemma_line_feeds_none(text.drop_last());
    }
}

/// A numeral, with or without a sign, holds no line feed.
pub proof fn lemma_line_feeds_numeral(i: int)
    ensures
        line_feeds(signed_decimal(i)) == 0,
        i >= 0 ==> line_feeds(decimal(i as nat)) == 0,
{
    if i < 0 {
        lemma_decimal_digits((-i) as nat);
    } else {
        lemma_decimal_digits(i as nat);
    }
    lemma_line_feeds_none(signed_decimal(i));
}

/// Appends one character to `s`.
///
/// Trusted: this is `String::push`, which the standard library documents as
/// appending the given character to the end of the string. The contract says
/// exactly that and nothing is proved of it.
#[verifier::external_body]
pub(crate) fn push_char(s: &mut String, c: char)
    ensures
        final(s)@ == old(s)@.push(c),
{
    s.push(c);
}

/// The character for one decimal digit.
pub(crate) fn digit_char(d: u8) -> (c: char)
    requires
        d < 10,
    ensures
        c == digit(d as int),
{
    ('0' as u8 + d) as char
}

/// Appends the decimal numeral of `n` to `s`.
pub(crate) fn push_decimal(s: &mut String, n: u128)
    ensures
        final(s)@ == old(s)@ + decimal(n as nat),
    decreases n,
{
    if n >= 10 {
        push_decimal(s, n / 10);
    }
    push_char(s, digit_char((n % 10) as u8));
}

/// Appends the decimal numeral of the signed number `i` to `s`.
pub(crate) fn push_signed_decimal(s: &mut String, i: i32)
    ensures
        final(s)@ == old(s)@ + signed_decimal(i as int),
{
    if i < 0 {
        push_char(s, '-');
        let magnitude: i64 = -(i as i64);
        push_decimal(s, magnitude as u128);
    } else {
        push_decimal(s, i as u128);
    }
}

/// The characters of `text`, one by one.
pub(crate) fn chars_of(text: &str) -> (chars: Vec<char>)
    ensures
        chars@ == text@,
{
    let mut chars: Vec<char> = Vec::new();
    for c in it: text.chars()
        invariant
            it.seq() == text@,
            chars@ == text@.take(it.index() as int),
    {
        chars.push(c);
    }
    chars
}

} // verus!
