use vstd::prelude::*;

use crate::diagnostic::Diagnostic;
use crate::error::{Error, ErrorView};
use crate::text::{
    chars_of, classes_of, classify, digit_value, digits_value, is_digit, push_char, CharClass,
};
use crate::token::{
    keyword_text, match_keyword, tokens_view, SourceLoc, Token, TokenValue, TokenValueView,
    TokenView,
};

verus! {

// ---------------------------------------------------------------------------
// Positions
/// The 1-based line and column of the character at index `i`: a newline
/// starts the next line at column 1, any other character moves one column on.
pub open spec fn line_col(cs: Seq<char>, i: int) -> (nat, nat)
    decreases i,
{
    if i <= 0 {
        (1, 1)
    } else {
        let (l, c) = line_col(cs, i - 1);
        if cs[i - 1] == '\n' {
            (l + 1, 1)
        } else {
            (l, c + 1)
        }
    }
}

/// The location of the character at index `i`.
pub open spec fn loc_at(cs: Seq<char>, i: int) -> SourceLoc {
    SourceLoc { line: line_col(cs, i).0 as u32, column: line_col(cs, i).1 as u32 }
}

pub proof fn lemma_line_col_bounds(cs: Seq<char>, i: int)
    requires
        0 <= i,
    ensures
        1 <= line_col(cs, i).0 <= i + 1,
        1 <= line_col(cs, i).1 <= i + 1,
    decreases i,
{
    if i > 0 {
        lemma_line_col_bounds(cs, i - 1);
    }
}

// ---------------------------------------------------------------------------
// The tokenizer, as a function on characters
/// The end of the word that continues at `i`: the first index from `i` on
/// whose character is not alphanumeric.
pub open spec fn word_end(cls: Seq<CharClass>, i: int) -> int
    decreases cls.len() - i,
{
    if i < 0 || i >= cls.len() || cls[i] == CharClass::Other {
        i
    } else {
        word_end(cls, i + 1)
    }
}

/// The end of the number text that continues at `i`: the first index from `i`
/// on whose character is neither an ASCII digit nor `.`.
pub open spec fn number_end(cs: Seq<char>, i: int) -> int
    decreases cs.len() - i,
{
    if i < 0 || i >= cs.len() || !(is_digit(cs[i]) || cs[i] == '.') {
        i
    } else {
        number_end(cs, i + 1)
    }
}

/// The index of the first `"` from `i` on, or the length if there is none.
pub open spec fn quote_end(cs: Seq<char>, i: int) -> int
    decreases cs.len() - i,
{
    if i < 0 || i >= cs.len() || cs[i] == '"' {
        i
    } else {
        quote_end(cs, i + 1)
    }
}

pub proof fn lemma_word_end(cls: Seq<CharClass>, i: int)
    requires
        0 <= i <= cls.len(),
    ensures
        i <= word_end(cls, i) <= cls.len(),
        word_end(cls, i) < cls.len() ==> cls[word_end(cls, i)] == CharClass::Other,
        forall|j: int| i <= j < word_end(cls, i) ==> cls[j] != CharClass::Other,
    decreases cls.len() - i,
{
    if i < cls.len() && cls[i] != CharClass::Other {
        lemma_word_end(cls, i + 1);
    }
}

pub proof fn lemma_number_end(cs: Seq<char>, i: int)
    requires
        0 <= i <= cs.len(),
    ensures
        i <= number_end(cs, i) <= cs.len(),
        forall|j: int| i <= j < number_end(cs, i) ==> is_digit(cs[j]) || cs[j] == '.',
    decreases cs.len() - i,
{
    if i < cs.len() && (is_digit(cs[i]) || cs[i] == '.') {
        lemma_number_end(cs, i + 1);
    }
}

pub proof fn lemma_quote_end(cs: Seq<char>, i: int)
    requires
        0 <= i <= cs.len(),
    ensures
        i <= quote_end(cs, i) <= cs.len(),
        quote_end(cs, i) < cs.len() ==> cs[quote_end(cs, i)] == '"',
        forall|j: int| i <= j < quote_end(cs, i) ==> cs[j] != '"',
    decreases cs.len() - i,
{
    if i < cs.len() && cs[i] != '"' {
        lemma_quote_end(cs, i + 1);
    }
}

/// How many `.` a text holds.
pub open spec fn count_dots(s: Seq<char>) -> nat
    decreases s.len(),
{
    if s.len() == 0 {
        0
    } else {
        count_dots(s.drop_last()) + if s.last() == '.' {
            1nat
        } else {
            0nat
        }
    }
}

/// The token of a one-character punctuation mark.
pub open spec fn punctuation_token(c: char) -> Option<TokenValueView> {
    if c == '=' {
        Some(TokenValueView::Assignment)
    } else if c == '{' {
        Some(TokenValueView::OpenBrace)
    } else if c == '}' {
        Some(TokenValueView::CloseBrace)
    } else if c == '(' {
        Some(TokenValueView::OpenParen)
    } else if c == ')' {
        Some(TokenValueView::CloseParen)
    } else if c == ',' {
        Some(TokenValueView::Comma)
    } else {
        None
    }
}

/// A token value with the index of the first character of its text.
pub type Unit = (TokenValueView, int);

/// `xs` followed by the sequence in `r`, or the error in `r`.
pub open spec fn then_prepend<X, E>(xs: Seq<X>, r: Result<Seq<X>, E>) -> Result<Seq<X>, E> {
    match r {
        Ok(s) => Ok(xs + s),
        Err(e) => Err(e),
    }
}

/// The lexical units from index `i` on, in order, or the first error.
///
/// The character at `i` decides: a letter begins a word (the keyword `macro`
/// or an identifier) of alphanumeric characters; an ASCII digit begins a
/// number of digits and dots; `"` begins a string that ends at the next `"`;
/// `$` and `@` begin a macro parameter and a macro call, whose name is a word;
/// the six punctuation marks stand alone; anything else is skipped.
pub open spec fn lex_units(cs: Seq<char>, cls: Seq<CharClass>, i: int) -> Result<
    Seq<Unit>,
    ErrorView,
>
    recommends
        cls.len() == cs.len(),
    decreases cs.len() - i,
{
    if i < 0 || i >= cs.len() || cls.len() != cs.len() {
        Ok(seq![])
    } else {
        let c = cs[i];
        if cls[i] == CharClass::Alphabetic {
            let e = word_end(cls, i + 1);
            proof {
                lemma_word_end(cls, i + 1);
            }
            let w = cs.subrange(i, e);
            let v = if w == keyword_text() {
                TokenValueView::Macro
            } else {
                TokenValueView::Identifier(w)
            };
            then_prepend(seq![(v, i)], lex_units(cs, cls, e))
        } else if is_digit(c) {
            let e = number_end(cs, i + 1);
            proof {
                lemma_number_end(cs, i + 1);
            }
            let t = cs.subrange(i, e);
            if count_dots(t) > 1 {
                Err(ErrorView::MalformedFloat)
            } else if count_dots(t) == 1 {
                then_prepend(seq![(TokenValueView::FloatLiteral(t), i)], lex_units(cs, cls, e))
            } else if digits_value(t) > u64::MAX {
                Err(ErrorView::MalformedInteger)
            } else {
                then_prepend(
                    seq![(TokenValueView::IntegerLiteral(digits_value(t) as u64), i)],
                    lex_units(cs, cls, e),
                )
            }
        } else if c == '"' {
            let e = quote_end(cs, i + 1);
            proof {
                lemma_quote_end(cs, i + 1);
            }
            if e >= cs.len() {
                Err(ErrorView::UnterminatedString)
            } else {
                then_prepend(
                    seq![(TokenValueView::String(cs.subrange(i + 1, e)), i)],
                    lex_units(cs, cls, e + 1),
                )
            }
        } else if c == '$' || c == '@' {
            if i + 1 >= cs.len() {
                Err(ErrorView::UnexpectedEOF)
            } else if cls[i + 1] != CharClass::Alphabetic {
                Err(ErrorView::MalformedMacroParameterName)
            } else {
                let e = word_end(cls, i + 1);
                proof {
                    lemma_word_end(cls, i + 1);
                }
                let name = cs.subrange(i + 1, e);
                let v = if c == '$' {
                    TokenValueView::MacroParameter(name)
                } else {
                    TokenValueView::MacroCall(name)
                };
                then_prepend(seq![(v, i)], lex_units(cs, cls, e))
            }
        } else if punctuation_token(c) is Some {
            then_prepend(seq![(punctuation_token(c)->0, i)], lex_units(cs, cls, i + 1))
        } else {
            lex_units(cs, cls, i + 1)
        }
    }
}

/// The tokens that units stand for: each located at its first character.
pub open spec fn units_view(cs: Seq<char>, us: Seq<Unit>) -> Seq<TokenView> {
    us.map_values(|u: Unit| TokenView { value: u.0, loc: loc_at(cs, u.1) })
}

/// The tokens of a text whose characters have the classes `cls`.
pub open spec fn lex_spec(cs: Seq<char>, cls: Seq<CharClass>) -> Result<Seq<TokenView>, ErrorView> {
    match lex_units(cs, cls, 0) {
        Ok(us) => Ok(units_view(cs, us)),
        Err(e) => Err(e),
    }
}

/// The model of what the tokenizer returns.
pub open spec fn lex_result_view(r: Result<Vec<Token>, Error>) -> Result<Seq<TokenView>, ErrorView> {
    match r {
        Ok(ts) => Ok(tokens_view(ts@)),
        Err(e) => Err(e@),
    }
}

pub proof fn lemma_then_prepend_assoc<X, E>(a: Seq<X>, b: Seq<X>, r: Result<Seq<X>, E>)
    ensures
        then_prepend(a, then_prepend(b, r)) == then_prepend(a + b, r),
{
    if let Ok(s) = r {
        assert(a + (b + s) =~= (a + b) + s);
    }
}

// ---------------------------------------------------------------------------
// Properties of the tokenizer
/// Whether the text at index `i` spells the token `v`, beginning with its
/// first character.
pub open spec fn spelled_at(cs: Seq<char>, v: TokenValueView, i: int) -> bool {
    match v {
        TokenValueView::Identifier(s) => s.len() > 0 && i + s.len() <= cs.len() && cs.subrange(
            i,
            i + s.len(),
        ) == s,
        TokenValueView::Macro => i + 5 <= cs.len() && cs.subrange(i, i + 5) == keyword_text(),
        TokenValueView::IntegerLiteral(n) => is_digit(cs[i]) && digits_value(
            cs.subrange(i, number_end(cs, i)),
        ) == n,
        TokenValueView::FloatLiteral(t) => is_digit(cs[i]) && i + t.len() <= cs.len()
            && cs.subrange(i, i + t.len()) == t,
        TokenValueView::String(s) => i + s.len() + 1 < cs.len() && cs[i] == '"' && cs.subrange(
            i + 1,
            i + 1 + s.len(),
        ) == s && cs[i + 1 + s.len()] == '"',
        TokenValueView::MacroParameter(s) => s.len() > 0 && i + 1 + s.len() <= cs.len() && cs[i]
            == '$' && cs.subrange(i + 1, i + 1 + s.len()) == s,
        TokenValueView::MacroCall(s) => s.len() > 0 && i + 1 + s.len() <= cs.len() && cs[i] == '@'
            && cs.subrange(i + 1, i + 1 + s.len()) == s,
        _ => punctuation_token(cs[i]) == Some(v),
    }
}

/// What holds of each unit from index `i` on: it begins at or after `i`,
/// inside the text, after the unit before it, where the text spells it; and no
/// identifier is the reserved word.
pub open spec fn units_well_placed(cs: Seq<char>, us: Seq<Unit>, i: int) -> bool {
    &&& forall|k: int|
        0 <= k < us.len() ==> i <= #[trigger] us[k].1 < cs.len() && spelled_at(cs, us[k].0, us[k].1)
    &&& forall|j: int, k: int| 0 <= j < k < us.len() ==> us[j].1 < us[k].1
    &&& forall|k: int|
        0 <= k < us.len() ==> (#[trigger] us[k].0 is Identifier ==> us[k].0->Identifier_0
            != keyword_text())
}

proof fn lemma_digits_value_nonneg(s: Seq<char>)
    requires
        forall|j: int| 0 <= j < s.len() ==> is_digit(s[j]) || s[j] == '.',
        count_dots(s) == 0,
    ensures
        digits_value(s) >= 0,
    decreases s.len(),
{
    if s.len() > 0 {
        lemma_digits_value_nonneg(s.drop_last());
    }
}

proof fn lemma_units_from(cs: Seq<char>, cls: Seq<CharClass>, i: int)
    requires
        cls.len() == cs.len(),
        0 <= i,
        lex_units(cs, cls, i) is Ok,
    ensures
        units_well_placed(cs, lex_units(cs, cls, i)->Ok_0, i),
    decreases cs.len() - i,
{
    if i < cs.len() {
        let c = cs[i];
        let us = lex_units(cs, cls, i)->Ok_0;
        let next: int = if cls[i] == CharClass::Alphabetic {
            lemma_word_end(cls, i + 1);
            word_end(cls, i + 1)
        } else if is_digit(c) {
            lemma_number_end(cs, i + 1);
            number_end(cs, i + 1)
        } else if c == '"' {
            lemma_quote_end(cs, i + 1);
            quote_end(cs, i + 1) + 1
        } else if c == '$' || c == '@' {
            lemma_word_end(cls, i + 1);
            word_end(cls, i + 1)
        } else {
            i + 1
        };
        lemma_units_from(cs, cls, next);
        let rest = lex_units(cs, cls, next)->Ok_0;
        if us.len() > rest.len() {
            assert(us == seq![us[0]] + rest);
            let (v, s) = us[0];
            assert(s == i);
            if cls[i] == CharClass::Alphabetic {
                let w = cs.subrange(i, next);
                assert(w.len() == next - i);
                if w != keyword_text() {
                    assert(cs.subrange(i, i + w.len()) =~= w);
                }
                assert(spelled_at(cs, v, i));
            } else if is_digit(c) {
                assert(number_end(cs, i) == number_end(cs, i + 1));
                let t = cs.subrange(i, next);
                assert(cs.subrange(i, i + t.len()) =~= t);
                if count_dots(t) == 0 {
                    lemma_digits_value_nonneg(t);
                }
                assert(spelled_at(cs, v, i));
            } else if c == '"' {
                let t = cs.subrange(i + 1, next - 1);
                assert(cs.subrange(i + 1, i + 1 + t.len()) =~= t);
                assert(spelled_at(cs, v, i));
            } else if c == '$' || c == '@' {
                lemma_word_end(cls, i + 2);
                assert(word_end(cls, i + 1) == word_end(cls, i + 2));
                let t = cs.subrange(i + 1, next);
                assert(cs.subrange(i + 1, i + 1 + t.len()) =~= t);
                assert(spelled_at(cs, v, i));
            } else {
                assert(spelled_at(cs, v, i));
            }
            assert forall|k: int| 0 <= k < us.len() implies i <= #[trigger] us[k].1 < cs.len()
                && spelled_at(cs, us[k].0, us[k].1) by {
                if k > 0 {
                    assert(us[k] == rest[k - 1]);
                }
            }
            assert forall|j: int, k: int| 0 <= j < k < us.len() implies us[j].1 < us[k].1 by {
                assert(us[k] == rest[k - 1]);
                if j > 0 {
                    assert(us[j] == rest[j - 1]);
                }
            }
            assert forall|k: int| 0 <= k < us.len() implies (#[trigger] us[k].0 is Identifier
                ==> us[k].0->Identifier_0 != keyword_text()) by {
                if k > 0 {
                    assert(us[k] == rest[k - 1]);
                }
            }
        } else {
            assert(us == rest);
        }
    }
}

/// Every token is located at the first character of its text: each token
/// stands for a unit that begins at an index of the text, where the text
/// spells the token, and its location is the 1-based line and column of that
/// index (`loc_at`). The units begin in increasing order.
pub proof fn lemma_token_locations(cs: Seq<char>, cls: Seq<CharClass>)
    requires
        cls.len() == cs.len(),
        lex_spec(cs, cls) is Ok,
    ensures
        ({
            let us = lex_units(cs, cls, 0)->Ok_0;
            let ts = lex_spec(cs, cls)->Ok_0;
            &&& ts.len() == us.len()
            &&& forall|k: int|
                0 <= k < us.len() ==> 0 <= #[trigger] us[k].1 < cs.len() && ts[k].value == us[k].0
                    && ts[k].loc == loc_at(cs, us[k].1) && spelled_at(cs, us[k].0, us[k].1)
            &&& forall|j: int, k: int| 0 <= j < k < us.len() ==> us[j].1 < us[k].1
        }),
{
    lemma_units_from(cs, cls, 0);
}

/// Only `macro` is reserved: every keyword token is spelled `macro`, and no
/// identifier token carries the text `macro`. Any other word, such as
/// `table`, becomes an identifier.
pub proof fn lemma_only_macro_is_reserved(cs: Seq<char>, cls: Seq<CharClass>)
    requires
        cls.len() == cs.len(),
        lex_spec(cs, cls) is Ok,
    ensures
        ({
            let us = lex_units(cs, cls, 0)->Ok_0;
            let ts = lex_spec(cs, cls)->Ok_0;
            forall|k: int|
                0 <= k < ts.len() ==> {
                    &&& #[trigger] ts[k].value is Macro ==> cs.subrange(us[k].1, us[k].1 + 5)
                        == keyword_text()
                    &&& ts[k].value is Identifier ==> ts[k].value->Identifier_0 != keyword_text()
                }
        }),
{
    lemma_units_from(cs, cls, 0);
}

/// Tokenizing is deterministic: any two results that `lex` may give for equal
/// texts are equal, token for token (kind, payload and location) or error for
/// error.
pub proof fn lemma_lex_deterministic(
    a: Seq<char>,
    b: Seq<char>,
    r1: Result<Vec<Token>, Error>,
    r2: Result<Vec<Token>, Error>,
)
    requires
        a == b,
        lex_result_view(r1) == lex_spec(a, classes_of(a)),
        lex_result_view(r2) == lex_spec(b, classes_of(b)),
    ensures
        lex_result_view(r1) == lex_result_view(r2),
{
}

/// How many newlines a text holds.
pub open spec fn newlines(s: Seq<char>) -> nat
    decreases s.len(),
{
    if s.len() == 0 {
        0
    } else {
        newlines(s.drop_last()) + if s.last() == '\n' {
            1nat
        } else {
            0nat
        }
    }
}

/// The index of the last newline before index `i`, or -1 if there is none.
pub open spec fn last_newline(cs: Seq<char>, i: int) -> int
    decreases i,
{
    if i <= 0 {
        -1
    } else if cs[i - 1] == '\n' {
        i - 1
    } else {
        last_newline(cs, i - 1)
    }
}

/// The line at index `i` is one more than the newlines before it; the column
/// is the distance from the last newline before it (or from the start).
pub proof fn lemma_line_col_counts(cs: Seq<char>, i: int)
    requires
        0 <= i <= cs.len(),
    ensures
        line_col(cs, i).0 == 1 + newlines(cs.subrange(0, i)),
        line_col(cs, i).1 == i - last_newline(cs, i),
    decreases i,
{
    if i > 0 {
        lemma_line_col_counts(cs, i - 1);
        assert(cs.subrange(0, i).drop_last() =~= cs.subrange(0, i - 1));
    }
}

/// Every token's line is one more than the number of newlines before the first
/// character of its text, and its column is that character's distance from
/// the last newline before it (or from the start of the text, plus one).
pub proof fn lemma_token_lines_and_columns(cs: Seq<char>, cls: Seq<CharClass>)
    requires
        cls.len() == cs.len(),
        cs.len() < u32::MAX,
        lex_spec(cs, cls) is Ok,
    ensures
        ({
            let us = lex_units(cs, cls, 0)->Ok_0;
            let ts = lex_spec(cs, cls)->Ok_0;
            &&& ts.len() == us.len()
            &&& forall|k: int|
                0 <= k < us.len() ==> {
                    &&& spelled_at(cs, us[k].0, #[trigger] us[k].1)
                    &&& ts[k].loc.line == 1 + newlines(cs.subrange(0, us[k].1))
                    &&& ts[k].loc.column == us[k].1 - last_newline(cs, us[k].1)
                }
        }),
{
    lemma_token_locations(cs, cls);
    let us = lex_units(cs, cls, 0)->Ok_0;
    let ts = lex_spec(cs, cls)->Ok_0;
    assert forall|k: int| 0 <= k < us.len() implies {
        &&& spelled_at(cs, us[k].0, #[trigger] us[k].1)
        &&& ts[k].loc.line == 1 + newlines(cs.subrange(0, us[k].1))
        &&& ts[k].loc.column == us[k].1 - last_newline(cs, us[k].1)
    } by {
        lemma_line_col_counts(cs, us[k].1);
        lemma_line_col_bounds(cs, us[k].1);
    }
}

// ---------------------------------------------------------------------------
// The scanner
/// Walks over characters one at a time and tracks the line and column of the
/// next one.
pub struct LexIter<'a> {
    pub chars: &'a [char],
    pub pos: usize,
    pub line: u32,
    pub column: u32,
}

impl<'a> LexIter<'a> {
    /// The position is in range and `line`, `column` are those of the
    /// character at `pos`.
    pub open spec fn wf(&self) -> bool {
        &&& self.chars@.len() < u32::MAX
        &&& self.pos <= self.chars@.len()
        &&& self.line as nat == line_col(self.chars@, self.pos as int).0
        &&& self.column as nat == line_col(self.chars@, self.pos as int).1
    }

    pub fn new(chars: &'a [char]) -> (r: LexIter<'a>)
        requires
            chars@.len() < u32::MAX,
        ensures
            r.wf(),
            r.chars@ == chars@,
            r.pos == 0,
    {
        LexIter { chars, pos: 0, line: 1, column: 1 }
    }

    /// The next character with its line and column, without moving on.
    pub fn peek(&self) -> (r: Option<(char, u32, u32)>)
        requires
            self.wf(),
        ensures
            self.pos < self.chars@.len() ==> r == Some(
                (
                    self.chars@[self.pos as int],
                    loc_at(self.chars@, self.pos as int).line,
                    loc_at(self.chars@, self.pos as int).column,
                ),
            ),
            self.pos >= self.chars@.len() ==> r is None,
    {
        if self.pos < self.chars.len() {
            Some((self.chars[self.pos], self.line, self.column))
        } else {
            None
        }
    }

    /// The next character with its line and column; moves past it.
    pub fn next(&mut self) -> (r: Option<(char, u32, u32)>)
        requires
            old(self).wf(),
        ensures
            final(self).wf(),
            final(self).chars == old(self).chars,
            old(self).pos < old(self).chars@.len() ==> {
                &&& r == Some(
                    (
                        old(self).chars@[old(self).pos as int],
                        loc_at(old(self).chars@, old(self).pos as int).line,
                        loc_at(old(self).chars@, old(self).pos as int).column,
                    ),
                )
                &&& final(self).pos == old(self).pos + 1
            },
            old(self).pos >= old(self).chars@.len() ==> r is None && *final(self) == *old(self),
    {
        if self.pos >= self.chars.len() {
            return None;
        }
        let c = self.chars[self.pos];
        let r = Some((c, self.line, self.column));
        proof {
            lemma_line_col_bounds(self.chars@, self.pos + 1);
        }
        if c == '\n' {
            self.line = self.line + 1;
            self.column = 1;
        } else {
            self.column = self.column + 1;
        }
        self.pos = self.pos + 1;
        r
    }
}


// ---------------------------------------------------------------------------
// The tokenizer
/// Moves over the rest of a word, appending its characters to `buffer`.
#[verifier::loop_isolation(false)]
fn scan_word(iter: &mut LexIter, classes: &[CharClass], buffer: &mut String)
    requires
        old(iter).wf(),
        classes@.len() == old(iter).chars@.len(),
    ensures
        final(iter).wf(),
        final(iter).chars == old(iter).chars,
        final(iter).pos == word_end(classes@, old(iter).pos as int),
        final(buffer)@ == old(buffer)@ + old(iter).chars@.subrange(
            old(iter).pos as int,
            final(iter).pos as int,
        ),
{
    let ghost start = iter.pos as int;
    let ghost prefix = buffer@;
    while iter.pos < classes.len() && classes[iter.pos] != CharClass::Other
        invariant
            iter.wf(),
            iter.chars == old(iter).chars,
            classes@.len() == iter.chars@.len(),
            start <= iter.pos,
            word_end(classes@, start) == word_end(classes@, iter.pos as int),
            buffer@ == prefix + iter.chars@.subrange(start, iter.pos as int),
        decreases classes@.len() - iter.pos,
    {
        let ghost p = iter.pos as int;
        let (c, _, _) = iter.next().unwrap();
        push_char(buffer, c);
        assert(iter.chars@.subrange(start, p + 1) =~= iter.chars@.subrange(start, p).push(c));
        assert(buffer@ =~= prefix + iter.chars@.subrange(start, p + 1));
    }
}

/// The one-character token that `c` stands for, if any.
fn punctuation(c: char) -> (r: Option<TokenValue>)
    ensures
        r is Some <==> punctuation_token(c) is Some,
        r is Some ==> r->0@ == punctuation_token(c)->0,
{
    match c {
        '=' => Some(TokenValue::Assignment),
        '{' => Some(TokenValue::OpenBrace),
        '}' => Some(TokenValue::CloseBrace),
        '(' => Some(TokenValue::OpenParen),
        ')' => Some(TokenValue::CloseParen),
        ',' => Some(TokenValue::Comma),
        _ => None,
    }
}

/// Tokenizes characters whose classes are given.
///
/// Succeeds exactly when `lex_spec` does, with the same tokens, and fails
/// with the same error otherwise.
#[verifier::loop_isolation(false)]
pub fn lex_classified(chars: &[char], classes: &[CharClass]) -> (r: Result<Vec<Token>, Error>)
    requires
        chars@.len() < u32::MAX,
        classes@.len() == chars@.len(),
    ensures
        lex_result_view(r) == lex_spec(chars@, classes@),
{
    let mut tokens: Vec<Token> = Vec::new();
    let mut iter = LexIter::new(chars);
    let ghost cs = chars@;
    let ghost cls = classes@;
    let ghost mut done: Seq<Unit> = seq![];
    while iter.pos < chars.len()
        invariant
            iter.wf(),
            iter.chars@ == cs,
            cs == chars@,
            cls == classes@,
            cls.len() == cs.len(),
            tokens_view(tokens@) == units_view(cs, done),
            lex_units(cs, cls, 0) == then_prepend(done, lex_units(cs, cls, iter.pos as int)),
        decreases cs.len() - iter.pos,
    {
        let start = iter.pos;
        let (c, line, column) = iter.next().unwrap();
        let loc = SourceLoc::new(line, column);
        assert(loc == loc_at(cs, start as int));
        let ghost rest = lex_units(cs, cls, start as int);
        let value: TokenValue;
        if classes[start] == CharClass::Alphabetic {
            let mut buffer = String::new();
            push_char(&mut buffer, c);
            scan_word(&mut iter, classes, &mut buffer);
            proof {
                lemma_word_end(cls, start + 1);
            }
            assert(buffer@ =~= cs.subrange(start as int, iter.pos as int));
            value = match match_keyword(buffer.as_str()) {
                Some(k) => k,
                None => TokenValue::Identifier(buffer),
            };
        } else if '0' <= c && c <= '9' {
            let mut buffer = String::new();
            push_char(&mut buffer, c);
            let mut dots: usize = 0;
            let mut number: u64 = (c as u32 - 48) as u64;
            let mut fits = true;
            assert(buffer@.drop_last() =~= Seq::<char>::empty());
            assert(count_dots(Seq::<char>::empty()) == 0);
            assert(digits_value(Seq::<char>::empty()) == 0);
            while iter.pos < chars.len() && (('0' <= chars[iter.pos] && chars[iter.pos] <= '9')
                || chars[iter.pos] == '.')
                invariant
                    iter.wf(),
                    iter.chars@ == cs,
                    cs == chars@,
                    start < iter.pos,
                    number_end(cs, start + 1) == number_end(cs, iter.pos as int),
                    buffer@ == cs.subrange(start as int, iter.pos as int),
                    dots == count_dots(buffer@),
                    dots <= iter.pos - start,
                    dots == 0 ==> (fits <==> digits_value(buffer@) <= u64::MAX),
                    dots == 0 && fits ==> number == digits_value(buffer@),
                    dots == 0 ==> digits_value(buffer@) >= 0,
                decreases cs.len() - iter.pos,
            {
                let ghost old_buffer = buffer@;
                let (d, _, _) = iter.next().unwrap();
                push_char(&mut buffer, d);
                assert(buffer@.drop_last() == old_buffer);
                assert(buffer@ =~= cs.subrange(start as int, iter.pos as int));
                if d == '.' {
                    dots = dots + 1;
                } else if dots == 0 {
                    let dv: u64 = (d as u32 - 48) as u64;
                    assert(digit_value(d) == dv);
                    if fits && number <= (u64::MAX - dv) / 10 {
                        assert(number * 10 + dv <= u64::MAX) by (nonlinear_arith)
                            requires
                                number <= (u64::MAX - dv) / 10,
                                dv <= 9,
                        ;
                        number = number * 10 + dv;
                    } else {
                        if fits {
                            assert(number * 10 + dv > u64::MAX) by (nonlinear_arith)
                                requires
                                    number > (u64::MAX - dv) / 10,
                                    dv <= 9,
                            ;
                        } else {
                            assert(digits_value(old_buffer) * 10 + dv > u64::MAX) by (
                            nonlinear_arith)
                                requires
                                    digits_value(old_buffer) > u64::MAX,
                            ;
                        }
                        fits = false;
                    }
                }
            }
            proof {
                lemma_number_end(cs, start + 1);
            }
            if dots > 1 {
                return Err(Error::MalformedFloat);
            } else if dots == 1 {
                value = TokenValue::FloatLiteral(buffer);
            } else if !fits {
                return Err(Error::MalformedInteger);
            } else {
                value = TokenValue::IntegerLiteral(number);
            }
        } else if c == '"' {
            let mut buffer = String::new();
            while iter.pos < chars.len() && chars[iter.pos] != '"'
                invariant
                    iter.wf(),
                    iter.chars@ == cs,
                    cs == chars@,
                    start < iter.pos,
                    quote_end(cs, start + 1) == quote_end(cs, iter.pos as int),
                    buffer@ == cs.subrange(start + 1, iter.pos as int),
                decreases cs.len() - iter.pos,
            {
                let (d, _, _) = iter.next().unwrap();
                push_char(&mut buffer, d);
                assert(buffer@ =~= cs.subrange(start + 1, iter.pos as int));
            }
            if iter.pos >= chars.len() {
                return Err(Error::UnterminatedString);
            }
            iter.next();
            value = TokenValue::String(buffer);
        } else if c == '$' || c == '@' {
            if iter.pos >= chars.len() {
                return Err(Error::UnexpectedEOF);
            }
            if classes[iter.pos] != CharClass::Alphabetic {
                return Err(Error::MalformedMacroParameterName);
            }
            let mut buffer = String::new();
            scan_word(&mut iter, classes, &mut buffer);
            proof {
                lemma_word_end(cls, start + 1);
            }
            assert(buffer@ =~= cs.subrange(start + 1, iter.pos as int));
            if c == '$' {
                value = TokenValue::MacroParameter(buffer);
            } else {
                value = TokenValue::MacroCall(buffer);
            }
        } else {
            match punctuation(c) {
                Some(p) => {
                    value = p;
                },
                None => {
                    continue ;
                },
            }
        }
        let ghost u: Unit = (value@, start as int);
        let token = Token::new(value, loc);
        let ghost tv = token@;
        let ghost before = tokens@;
        tokens.push(token);
        proof {
            assert(tv == TokenView { value: u.0, loc: loc_at(cs, u.1) });
            assert(tokens@.len() == before.len() + 1);
            assert(tokens@[before.len() as int]@ == tv);
            assert(tokens_view(tokens@) =~= tokens_view(before).push(tv));
            assert(rest == then_prepend(seq![u], lex_units(cs, cls, iter.pos as int)));
            lemma_then_prepend_assoc(done, seq![u], lex_units(cs, cls, iter.pos as int));
            done = done + seq![u];
            assert(tokens_view(tokens@) =~= units_view(cs, done));
        }
    }
    assert(done + Seq::<Unit>::empty() =~= done);
    Ok(tokens)
}

/// Tokenizes a text in one left-to-right pass.
///
/// The result is `lex_spec` of the text and the classes of its characters:
/// the tokens with the locations of their first characters, or the first
/// error. `diagnostics` is left as it is.
pub fn lex(text: &str, diagnostics: &mut Vec<Diagnostic>) -> (r: Result<Vec<Token>, Error>)
    requires
        text@.len() < u32::MAX,
    ensures
        lex_result_view(r) == lex_spec(text@, classes_of(text@)),
        final(diagnostics)@ == old(diagnostics)@,
{
    let chars = chars_of(text);
    let classes = classify(chars.as_slice());
    lex_classified(chars.as_slice(), classes.as_slice())
}

} // verus!
