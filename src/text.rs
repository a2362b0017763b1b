use vstd::prelude::*;

verus! {

use vstd::std_specs::iter::IteratorSpec;

/// Whether `char::is_alphabetic` holds of a character (Unicode's Alphabetic property).
pub uninterp spec fn alphabetic(c: char) -> bool;

/// Whether `char::is_alphanumeric` holds of a character.
pub uninterp spec fn alphanumeric(c: char) -> bool;

/// Relies on `char::is_alphabetic`.
#[verifier::external_body]
fn is_alphabetic(c: char) -> (r: bool)
    ensures
        r == alphabetic(c),
{
    c.is_alphabetic()
}

/// Relies on `char::is_alphanumeric`, which its documentation defines as
/// `is_alphabetic() || is_numeric()`: every alphabetic character is alphanumeric.
#[verifier::external_body]
fn is_alphanumeric(c: char) -> (r: bool)
    ensures
        r == alphanumeric(c),
        alphabetic(c) ==> r,
{
    c.is_alphanumeric()
}

/// Relies on `String::push`: appends one character.
#[verifier::external_body]
pub(crate) fn push_char(s: &mut String, c: char)
    ensures
        final(s)@ == old(s)@.push(c),
{
    s.push(c);
}

/// How the tokenizer sees a character.
#[derive(Debug, Clone, Copy, PartialEq, Eq, Structural)]
pub enum CharClass {
    /// A letter: it may begin a word.
    Alphabetic,
    /// Alphanumeric without being alphabetic (a digit of some script): it may
    /// continue a word.
    Numeric,
    /// Anything else.
    Other,
}

pub open spec fn class_of(c: char) -> CharClass {
    if alphabetic(c) {
        CharClass::Alphabetic
    } else if alphanumeric(c) {
        CharClass::Numeric
    } else {
        CharClass::Other
    }
}

/// The class of each character of a text.
pub open spec fn classes_of(cs: Seq<char>) -> Seq<CharClass> {
    Seq::new(cs.len(), |i: int| class_of(cs[i]))
}

/// Classifies one character.
pub fn classify_char(c: char) -> (r: CharClass)
    ensures
        r == class_of(c),
{
    if is_alphabetic(c) {
        CharClass::Alphabetic
    } else if is_alphanumeric(c) {
        CharClass::Numeric
    } else {
        CharClass::Other
    }
}

/// Classifies every character of a sequence.
pub fn classify(chars: &[char]) -> (r: Vec<CharClass>)
    ensures
        r@ == classes_of(chars@),
{
    let mut r: Vec<CharClass> = Vec::new();
    let mut i: usize = 0;
    while i < chars.len()
        invariant
            i <= chars@.len(),
            r@ == classes_of(chars@).subrange(0, i as int),
        decreases chars@.len() - i,
    {
        r.push(classify_char(chars[i]));
        i += 1;
        assert(r@ =~= classes_of(chars@).subrange(0, i as int));
    }
    assert(r@ =~= classes_of(chars@));
    r
}

/// The characters of a string, in order.
pub fn chars_of(text: &str) -> (r: Vec<char>)
    ensures
        r@ == text@,
{
    let mut it = text.chars();
    let mut r: Vec<char> = Vec::new();
    loop
        invariant
            r@ + it.remaining() == text@,
            it.decrease() is Some,
        ensures
            r@ == text@,
        decreases it.decrease()->0,
    {
        match it.next() {
            Some(c) => {
                r.push(c);
            },
            None => {
                assert(it.remaining() =~= Seq::<char>::empty());
                assert(r@ =~= r@ + it.remaining());
                break ;
            },
        }
    }
    r
}

pub open spec fn is_digit(c: char) -> bool {
    '0' <= c && c <= '9'
}

/// The digit character for `d < 10`.
pub open spec fn digit_char(d: nat) -> char {
    (d + 48) as char
}

/// The value of an ASCII digit.
pub open spec fn digit_value(c: char) -> int {
    c as int - 48
}

/// The decimal text of a number, without leading zeros.
pub open spec fn decimal(n: nat) -> Seq<char>
    decreases n,
{
    if n < 10 {
        seq![digit_char(n)]
    } else {
        decimal(n / 10).push(digit_char(n % 10))
    }
}

/// The number that a sequence of ASCII digits denotes in decimal.
pub open spec fn digits_value(s: Seq<char>) -> int
    decreases s.len(),
{
    if s.len() == 0 {
        0
    } else {
        digits_value(s.drop_last()) * 10 + digit_value(s.last())
    }
}

/// Appends the decimal text of `n` to `out`.
fn append_decimal(out: &mut String, n: u64)
    ensures
        final(out)@ == old(out)@ + decimal(n as nat),
    decreases n,
{
    if n >= 10 {
        append_decimal(out, n / 10);
    }
    let d: u8 = (n % 10) as u8;
    push_char(out, (d + 48u8) as char);
    assert(decimal(n as nat) == if n < 10 {
        seq![digit_char(n as nat)]
    } else {
        decimal((n / 10) as nat).push(digit_char((n % 10) as nat))
    });
}

/// The decimal text of a number.
pub fn decimal_text(n: u64) -> (r: String)
    ensures
        r@ == decimal(n as nat),
{
    let mut s = String::new();
    append_decimal(&mut s, n);
    assert(s@ == Seq::<char>::empty() + decimal(n as nat));
    s
}

} // verus!
