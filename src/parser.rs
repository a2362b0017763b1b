use vstd::prelude::*;

use crate::diagnostic::Diagnostic;
use crate::error::{Error, ErrorView};
use crate::lexer::{lemma_then_prepend_assoc, then_prepend};
use crate::keyvalue::{
    strings_view, BlockValue, EntryView, Key, KeyValueBlock, KeyValueEntry, KeyView, ValueView,
};
use crate::text::{decimal, decimal_text};
use crate::token::{tokens_view, Token, TokenKind, TokenValue, TokenValueView, TokenView};

verus! {

/// How deeply blocks may nest inside one another.
pub const MAX_NESTING: usize = 64;

// ---------------------------------------------------------------------------
// The grammar, as functions on token sequences
//
// Each function reads from index `p` and gives what it parsed with the index
// after it, or the first error.
/// Whether a token may be a word of a key.
pub open spec fn is_word(t: TokenValueView) -> bool {
    t is Identifier || t is IntegerLiteral
}

/// The text of a word: an identifier, or an integer in decimal.
pub open spec fn word_text(t: TokenValueView) -> Seq<char> {
    match t {
        TokenValueView::Identifier(s) => s,
        TokenValueView::IntegerLiteral(n) => decimal(n as nat),
        _ => seq![],
    }
}

/// The first index from `i` on whose token is not a word.
pub open spec fn key_end(ts: Seq<TokenView>, i: int) -> int
    decreases ts.len() - i,
{
    if i < 0 || i >= ts.len() || !is_word(ts[i].value) {
        i
    } else {
        key_end(ts, i + 1)
    }
}

/// The words of `ts[i..j]` joined by single spaces.
pub open spec fn joined_words(ts: Seq<TokenView>, i: int, j: int) -> Seq<char>
    decreases j - i,
{
    if j <= i + 1 {
        word_text(ts[i].value)
    } else {
        joined_words(ts, i, j - 1) + seq![' '] + word_text(ts[j - 1].value)
    }
}

pub proof fn lemma_key_end(ts: Seq<TokenView>, i: int)
    requires
        0 <= i <= ts.len(),
    ensures
        i <= key_end(ts, i) <= ts.len(),
        key_end(ts, i) < ts.len() ==> !is_word(ts[key_end(ts, i)].value),
    decreases ts.len() - i,
{
    if i < ts.len() && is_word(ts[i].value) {
        lemma_key_end(ts, i + 1);
    }
}

/// `xs` followed by the sequence in `r`, with the index in `r`; or the error in `r`.
pub open spec fn then_prepend_parsed<X>(xs: Seq<X>, r: Result<(Seq<X>, int), ErrorView>) -> Result<
    (Seq<X>, int),
    ErrorView,
> {
    match r {
        Ok((s, q)) => Ok((xs + s, q)),
        Err(e) => Err(e),
    }
}

/// A value: a nested block, an integer or a string (kept as text), or a
/// macro parameter.
pub open spec fn parse_value_spec(ts: Seq<TokenView>, p: int, depth: nat) -> Result<
    (ValueView, int),
    ErrorView,
>
    decreases ts.len() - p, 0int,
{
    if p < 0 || p >= ts.len() {
        Err(ErrorView::UnexpectedEOF)
    } else {
        match ts[p].value {
            TokenValueView::OpenBrace => if depth >= MAX_NESTING {
                Err(ErrorView::RecursionLimitExceeded)
            } else {
                match parse_block_spec(ts, p + 1, depth + 1) {
                    Ok((es, q)) => Ok((ValueView::Block(es), q)),
                    Err(e) => Err(e),
                }
            },
            TokenValueView::IntegerLiteral(n) => Ok((ValueView::Literal(decimal(n as nat)), p + 1)),
            TokenValueView::String(s) => Ok((ValueView::Literal(s), p + 1)),
            TokenValueView::MacroParameter(s) => Ok((ValueView::MacroValue(s), p + 1)),
            _ => Err(ErrorView::UnexpectedToken(ts[p])),
        }
    }
}

/// The entries of a block up to its `}` (the `{` is at `p - 1`). Commas are
/// skipped; after each entry a `,` or `}` must follow.
///
/// An entry always ends after the index where it starts; the test of that
/// only serves to show that the definition terminates.
pub open spec fn parse_block_spec(ts: Seq<TokenView>, p: int, depth: nat) -> Result<
    (Seq<EntryView>, int),
    ErrorView,
>
    decreases ts.len() - p, 2int,
{
    if p < 0 || p >= ts.len() {
        Err(ErrorView::UnexpectedEOF)
    } else {
        match ts[p].value {
            TokenValueView::CloseBrace => Ok((seq![], p + 1)),
            TokenValueView::Comma => parse_block_spec(ts, p + 1, depth),
            TokenValueView::Identifier(_) | TokenValueView::MacroParameter(_) => {
                let r = if ts[p].value is Identifier {
                    parse_name_entry_spec(ts, p, depth)
                } else {
                    parse_param_entry_spec(ts, p, depth)
                };
                match r {
                    Err(e) => Err(e),
                    Ok((e, q)) => if q <= p || q >= ts.len() {
                        Err(ErrorView::UnexpectedEOF)
                    } else if !(ts[q].value is Comma || ts[q].value is CloseBrace) {
                        Err(ErrorView::UnexpectedToken(ts[q]))
                    } else {
                        then_prepend_parsed(seq![e], parse_block_spec(ts, q, depth))
                    },
                }
            },
            _ => Err(ErrorView::UnexpectedToken(ts[p])),
        }
    }
}

/// An entry whose key begins with the word at `p`: further words join the key
/// until a `,` (no value; the comma is left to separate the entry from the
/// next), a `=` (the value follows), or a macro parameter, which replaces the
/// words as the key and takes the value after a `=` if one follows.
pub open spec fn parse_name_entry_spec(ts: Seq<TokenView>, p: int, depth: nat) -> Result<
    (EntryView, int),
    ErrorView,
>
    decreases ts.len() - p, 1int,
{
    if p < 0 || p >= ts.len() {
        Err(ErrorView::UnexpectedEOF)
    } else {
        let e = key_end(ts, p + 1);
        proof {
            lemma_key_end(ts, p + 1);
        }
        let loc = ts[p].loc;
        if e >= ts.len() {
            Err(ErrorView::UnexpectedEOF)
        } else {
            match ts[e].value {
                TokenValueView::Comma => Ok(
                    (
                        EntryView {
                            key: KeyView::Name(joined_words(ts, p, e)),
                            value: ValueView::Empty,
                            location: loc,
                        },
                        e,
                    ),
                ),
                TokenValueView::Assignment => match parse_value_spec(ts, e + 1, depth) {
                    Ok((v, q)) => Ok(
                        (
                            EntryView {
                                key: KeyView::Name(joined_words(ts, p, e)),
                                value: v,
                                location: loc,
                            },
                            q,
                        ),
                    ),
                    Err(x) => Err(x),
                },
                TokenValueView::MacroParameter(m) => if e + 1 < ts.len() && ts[e
                    + 1].value is Assignment {
                    match parse_value_spec(ts, e + 2, depth) {
                        Ok((v, q)) => Ok(
                            (EntryView { key: KeyView::MacroValue(m), value: v, location: loc }, q),
                        ),
                        Err(x) => Err(x),
                    }
                } else {
                    Ok(
                        (
                            EntryView {
                                key: KeyView::MacroValue(m),
                                value: ValueView::Empty,
                                location: loc,
                            },
                            e + 1,
                        ),
                    )
                },
                _ => Err(ErrorView::UnexpectedToken(ts[e])),
            }
        }
    }
}

/// The text a macro parameter token carries.
pub open spec fn param_name(t: TokenValueView) -> Seq<char> {
    match t {
        TokenValueView::MacroParameter(s) => s,
        _ => seq![],
    }
}

/// An entry whose key is the macro parameter at `p`: a `,` follows (no value;
/// the comma is left to separate the entry from the next) or a `=` and the
/// value.
pub open spec fn parse_param_entry_spec(ts: Seq<TokenView>, p: int, depth: nat) -> Result<
    (EntryView, int),
    ErrorView,
>
    decreases ts.len() - p, 1int,
{
    if p < 0 || p + 1 >= ts.len() {
        Err(ErrorView::UnexpectedEOF)
    } else {
        let key = KeyView::MacroValue(param_name(ts[p].value));
        let loc = ts[p].loc;
        match ts[p + 1].value {
            TokenValueView::Comma => Ok(
                (EntryView { key, value: ValueView::Empty, location: loc }, p + 1),
            ),
            TokenValueView::Assignment => match parse_value_spec(ts, p + 2, depth) {
                Ok((v, q)) => Ok((EntryView { key, value: v, location: loc }, q)),
                Err(x) => Err(x),
            },
            _ => Err(ErrorView::UnexpectedToken(ts[p + 1])),
        }
    }
}

/// The text of an item of a parenthesized list: macro parameters in a
/// definition, identifiers and integers at a call site.
pub open spec fn list_item(t: TokenValueView, call_site: bool) -> Option<Seq<char>> {
    if call_site {
        match t {
            TokenValueView::Identifier(s) => Some(s),
            TokenValueView::IntegerLiteral(n) => Some(decimal(n as nat)),
            _ => None,
        }
    } else {
        match t {
            TokenValueView::MacroParameter(s) => Some(s),
            _ => None,
        }
    }
}

/// A comma-separated list up to its `)` (the `(` is at `p - 1`).
pub open spec fn parse_list_spec(ts: Seq<TokenView>, p: int, call_site: bool) -> Result<
    (Seq<Seq<char>>, int),
    ErrorView,
>
    decreases ts.len() - p,
{
    if p < 0 || p >= ts.len() {
        Err(ErrorView::UnexpectedEOF)
    } else if ts[p].value is CloseParen {
        Ok((seq![], p + 1))
    } else {
        match list_item(ts[p].value, call_site) {
            None => Err(ErrorView::UnexpectedToken(ts[p])),
            Some(s) => if p + 1 >= ts.len() {
                Err(ErrorView::UnexpectedEOF)
            } else if ts[p + 1].value is CloseParen {
                Ok((seq![s], p + 2))
            } else if ts[p + 1].value is Comma {
                then_prepend_parsed(seq![s], parse_list_spec(ts, p + 2, call_site))
            } else {
                Err(ErrorView::UnexpectedToken(ts[p + 1]))
            },
        }
    }
}

/// `= value` at `q`, making the entry keyed by a macro signature.
pub open spec fn parse_signature_value_spec(
    ts: Seq<TokenView>,
    q: int,
    name: Seq<char>,
    args: Seq<Seq<char>>,
    location: crate::token::SourceLoc,
) -> Result<(EntryView, int), ErrorView> {
    if q < 0 || q >= ts.len() {
        Err(ErrorView::UnexpectedEOF)
    } else if !(ts[q].value is Assignment) {
        Err(ErrorView::UnexpectedToken(ts[q]))
    } else {
        match parse_value_spec(ts, q + 1, 0) {
            Ok((v, r)) => Ok(
                (
                    EntryView {
                        key: KeyView::MacroSignature { name, args },
                        value: v,
                        location,
                    },
                    r,
                ),
            ),
            Err(e) => Err(e),
        }
    }
}

/// `macro name(params) = value` with `macro` at `p`; without `(` the
/// parameter list is empty.
pub open spec fn parse_macro_definition_spec(ts: Seq<TokenView>, p: int) -> Result<
    (EntryView, int),
    ErrorView,
> {
    if p < 0 || p + 1 >= ts.len() {
        Err(ErrorView::UnexpectedEOF)
    } else {
        match ts[p + 1].value {
            TokenValueView::Identifier(name) => {
                let params = if p + 2 < ts.len() && ts[p + 2].value is OpenParen {
                    parse_list_spec(ts, p + 3, false)
                } else {
                    Ok((seq![], p + 2))
                };
                match params {
                    Err(e) => Err(e),
                    Ok((args, q)) => parse_signature_value_spec(ts, q, name, args, ts[p].loc),
                }
            },
            _ => Err(ErrorView::UnexpectedToken(ts[p + 1])),
        }
    }
}

/// The name that a macro call token carries.
pub open spec fn call_name(t: TokenValueView) -> Seq<char> {
    match t {
        TokenValueView::MacroCall(s) => s,
        _ => seq![],
    }
}

/// `@name(args) = value` with `@name` at `p`.
pub open spec fn parse_macro_call_spec(ts: Seq<TokenView>, p: int) -> Result<
    (EntryView, int),
    ErrorView,
> {
    if p < 0 || p + 1 >= ts.len() {
        Err(ErrorView::UnexpectedEOF)
    } else if !(ts[p + 1].value is OpenParen) {
        Err(ErrorView::UnexpectedToken(ts[p + 1]))
    } else {
        match parse_list_spec(ts, p + 2, true) {
            Err(e) => Err(e),
            Ok((args, q)) => parse_signature_value_spec(
                ts,
                q,
                call_name(ts[p].value),
                args,
                ts[p].loc,
            ),
        }
    }
}

/// One top-level statement at `p`. A key without a value may be followed by
/// one comma, which belongs to the statement.
pub open spec fn parse_statement_spec(ts: Seq<TokenView>, p: int) -> Result<
    (EntryView, int),
    ErrorView,
> {
    if p < 0 || p >= ts.len() {
        Err(ErrorView::UnexpectedEOF)
    } else {
        match ts[p].value {
            TokenValueView::Identifier(_) => match parse_name_entry_spec(ts, p, 0) {
                Ok((e, q)) => if e.value is Empty && 0 <= q < ts.len() && ts[q].value is Comma {
                    Ok((e, q + 1))
                } else {
                    Ok((e, q))
                },
                Err(x) => Err(x),
            },
            TokenValueView::Macro => parse_macro_definition_spec(ts, p),
            TokenValueView::MacroCall(_) => parse_macro_call_spec(ts, p),
            _ => Err(ErrorView::UnexpectedToken(ts[p])),
        }
    }
}

/// The top-level statements from `p` to the end.
///
/// A statement always ends after the index where it starts and at most at the
/// end; the test of that only serves to show that the definition terminates.
pub open spec fn parse_statements_spec(ts: Seq<TokenView>, p: int) -> Result<
    Seq<EntryView>,
    ErrorView,
>
    decreases ts.len() - p,
{
    if p < 0 || p >= ts.len() {
        Ok(seq![])
    } else {
        match parse_statement_spec(ts, p) {
            Err(e) => Err(e),
            Ok((e, q)) => if q <= p || q > ts.len() {
                Err(ErrorView::UnexpectedEOF)
            } else {
                match parse_statements_spec(ts, q) {
                    Ok(es) => Ok(seq![e] + es),
                    Err(x) => Err(x),
                }
            },
        }
    }
}

/// The tree that a token sequence parses to, or the first error.
pub open spec fn parse_spec(ts: Seq<TokenView>) -> Result<Seq<EntryView>, ErrorView> {
    parse_statements_spec(ts, 0)
}

// ---------------------------------------------------------------------------
// Properties of the grammar
/// Whether `ts1` from `q1` on and `ts2` from `q2` on hold the same tokens.
pub open spec fn same_from(ts1: Seq<TokenView>, q1: int, ts2: Seq<TokenView>, q2: int) -> bool {
    &&& 0 <= q1 <= ts1.len()
    &&& 0 <= q2 <= ts2.len()
    &&& ts1.subrange(q1, ts1.len() as int) == ts2.subrange(q2, ts2.len() as int)
}

/// A parsed result with its index moved on by `o`.
pub open spec fn shifted<T>(r: Result<(T, int), ErrorView>, o: int) -> Result<(T, int), ErrorView> {
    match r {
        Ok((v, q)) => Ok((v, q + o)),
        Err(e) => Err(e),
    }
}

proof fn lemma_same_from(ts1: Seq<TokenView>, q1: int, ts2: Seq<TokenView>, q2: int, j: int)
    requires
        same_from(ts1, q1, ts2, q2),
        0 <= j <= ts1.len() - q1,
    ensures
        same_from(ts1, q1 + j, ts2, q2 + j),
        ts1.len() - q1 == ts2.len() - q2,
        j < ts1.len() - q1 ==> ts1[q1 + j] == ts2[q2 + j],
{
    let a = ts1.subrange(q1, ts1.len() as int);
    let b = ts2.subrange(q2, ts2.len() as int);
    assert(a.len() == b.len());
    if j < ts1.len() - q1 {
        assert(a[j] == b[j]);
    }
    assert(ts1.subrange(q1 + j, ts1.len() as int) =~= a.subrange(j, a.len() as int));
    assert(ts2.subrange(q2 + j, ts2.len() as int) =~= b.subrange(j, b.len() as int));
}

proof fn lemma_key_end_shift(ts1: Seq<TokenView>, q1: int, ts2: Seq<TokenView>, q2: int)
    requires
        same_from(ts1, q1, ts2, q2),
    ensures
        key_end(ts1, q1) - q1 == key_end(ts2, q2) - q2,
    decreases ts1.len() - q1,
{
    lemma_same_from(ts1, q1, ts2, q2, 0);
    if q1 < ts1.len() && is_word(ts1[q1].value) {
        lemma_same_from(ts1, q1, ts2, q2, 1);
        lemma_key_end_shift(ts1, q1 + 1, ts2, q2 + 1);
    }
}

proof fn lemma_joined_words_shift(
    ts1: Seq<TokenView>,
    q1: int,
    ts2: Seq<TokenView>,
    q2: int,
    n: int,
)
    requires
        same_from(ts1, q1, ts2, q2),
        1 <= n <= ts1.len() - q1,
    ensures
        joined_words(ts1, q1, q1 + n) == joined_words(ts2, q2, q2 + n),
    decreases n,
{
    lemma_same_from(ts1, q1, ts2, q2, 0);
    lemma_same_from(ts1, q1, ts2, q2, n - 1);
    if n > 1 {
        lemma_joined_words_shift(ts1, q1, ts2, q2, n - 1);
    }
}

proof fn lemma_value_shift(ts1: Seq<TokenView>, q1: int, ts2: Seq<TokenView>, q2: int, d: nat)
    requires
        same_from(ts1, q1, ts2, q2),
    ensures
        parse_value_spec(ts1, q1, d) == shifted(parse_value_spec(ts2, q2, d), q1 - q2),
    decreases ts1.len() - q1, 0int,
{
    lemma_same_from(ts1, q1, ts2, q2, 0);
    if q1 < ts1.len() {
        if ts1[q1].value is OpenBrace && d < MAX_NESTING {
            lemma_same_from(ts1, q1, ts2, q2, 1);
            lemma_block_shift(ts1, q1 + 1, ts2, q2 + 1, d + 1);
        }
    }
}

proof fn lemma_block_shift(ts1: Seq<TokenView>, q1: int, ts2: Seq<TokenView>, q2: int, d: nat)
    requires
        same_from(ts1, q1, ts2, q2),
    ensures
        parse_block_spec(ts1, q1, d) == shifted(parse_block_spec(ts2, q2, d), q1 - q2),
    decreases ts1.len() - q1, 2int,
{
    lemma_same_from(ts1, q1, ts2, q2, 0);
    if q1 < ts1.len() {
        let o = q1 - q2;
        match ts1[q1].value {
            TokenValueView::Comma => {
                lemma_same_from(ts1, q1, ts2, q2, 1);
                lemma_block_shift(ts1, q1 + 1, ts2, q2 + 1, d);
            },
            TokenValueView::Identifier(_) | TokenValueView::MacroParameter(_) => {
                if ts1[q1].value is Identifier {
                    lemma_name_entry_shift(ts1, q1, ts2, q2, d);
                } else {
                    lemma_param_entry_shift(ts1, q1, ts2, q2, d);
                }
                let r1 = if ts1[q1].value is Identifier {
                    parse_name_entry_spec(ts1, q1, d)
                } else {
                    parse_param_entry_spec(ts1, q1, d)
                };
                if let Ok((e, q)) = r1 {
                    if q > q1 && q < ts1.len() {
                        lemma_same_from(ts1, q1, ts2, q2, q - q1);
                        lemma_block_shift(ts1, q, ts2, q - o, d);
                    }
                }
            },
            _ => {},
        }
    }
}

proof fn lemma_name_entry_shift(
    ts1: Seq<TokenView>,
    q1: int,
    ts2: Seq<TokenView>,
    q2: int,
    d: nat,
)
    requires
        same_from(ts1, q1, ts2, q2),
    ensures
        parse_name_entry_spec(ts1, q1, d) == shifted(parse_name_entry_spec(ts2, q2, d), q1 - q2),
    decreases ts1.len() - q1, 1int,
{
    lemma_same_from(ts1, q1, ts2, q2, 0);
    if q1 < ts1.len() {
        lemma_same_from(ts1, q1, ts2, q2, 1);
        lemma_key_end_shift(ts1, q1 + 1, ts2, q2 + 1);
        lemma_key_end(ts1, q1 + 1);
        let e = key_end(ts1, q1 + 1);
        if e < ts1.len() {
            lemma_same_from(ts1, q1, ts2, q2, e - q1);
            lemma_joined_words_shift(ts1, q1, ts2, q2, e - q1);
            lemma_same_from(ts1, q1, ts2, q2, e + 1 - q1);
            lemma_value_shift(ts1, e + 1, ts2, e + 1 - (q1 - q2), d);
            if e + 1 < ts1.len() {
                lemma_same_from(ts1, q1, ts2, q2, e + 2 - q1);
                lemma_value_shift(ts1, e + 2, ts2, e + 2 - (q1 - q2), d);
            }
        }
    }
}

proof fn lemma_param_entry_shift(
    ts1: Seq<TokenView>,
    q1: int,
    ts2: Seq<TokenView>,
    q2: int,
    d: nat,
)
    requires
        same_from(ts1, q1, ts2, q2),
    ensures
        parse_param_entry_spec(ts1, q1, d) == shifted(parse_param_entry_spec(ts2, q2, d), q1 - q2),
    decreases ts1.len() - q1, 1int,
{
    lemma_same_from(ts1, q1, ts2, q2, 0);
    if q1 + 1 < ts1.len() {
        lemma_same_from(ts1, q1, ts2, q2, 1);
        lemma_same_from(ts1, q1, ts2, q2, 2);
        lemma_value_shift(ts1, q1 + 2, ts2, q2 + 2, d);
    }
}

/// A macro call's value is its body parsed on its own: `ts` is
/// `@name(args) = body` and `ts2` is `k = body` with the same body tokens; when
/// `k = body` parses to one entry, the call parses to one entry keyed by its
/// signature, with the same value. No parameter is substituted and no
/// definition is looked up.
pub proof fn lemma_macro_call_value(ts: Seq<TokenView>, ts2: Seq<TokenView>, n: int)
    requires
        2 <= n <= ts.len(),
        ts[0].value is MacroCall,
        ts[1].value is OpenParen,
        parse_list_spec(ts, 2, true) is Ok,
        parse_list_spec(ts, 2, true)->Ok_0.1 == n - 1,
        ts[n - 1].value is Assignment,
        ts2.len() >= 2,
        ts2[0].value is Identifier,
        ts2[1].value is Assignment,
        ts.subrange(n, ts.len() as int) == ts2.subrange(2, ts2.len() as int),
        parse_spec(ts2) is Ok,
        parse_spec(ts2)->Ok_0.len() == 1,
    ensures
        parse_spec(ts) is Ok,
        parse_spec(ts)->Ok_0.len() == 1,
        parse_spec(ts)->Ok_0[0].key == (KeyView::MacroSignature {
            name: call_name(ts[0].value),
            args: parse_list_spec(ts, 2, true)->Ok_0.0,
        }),
        parse_spec(ts)->Ok_0[0].value == parse_spec(ts2)->Ok_0[0].value,
{
    assert(key_end(ts2, 1) == 1);
    let (v, r) = parse_value_spec(ts2, 2, 0)->Ok_0;
    assert(parse_statement_spec(ts2, 0) == Ok::<(EntryView, int), ErrorView>(
        (EntryView { key: KeyView::Name(joined_words(ts2, 0, 1)), value: v, location: ts2[0].loc }, r),
    ));
    assert(0 < r <= ts2.len());
    if r < ts2.len() {
        assert(parse_statements_spec(ts2, r) is Ok ==> parse_statements_spec(ts2, r)->Ok_0.len() >= 1);
    }
    assert(r == ts2.len());
    assert(same_from(ts, n, ts2, 2));
    lemma_same_from(ts, n, ts2, 2, 0);
    assert(parse_value_spec(ts2, 2, 0) == Ok::<(ValueView, int), ErrorView>((v, r)));
    lemma_value_shift(ts, n, ts2, 2, 0);
    assert(parse_value_spec(ts, n, 0) == Ok::<(ValueView, int), ErrorView>((v, ts.len() as int)));
    let args = parse_list_spec(ts, 2, true)->Ok_0.0;
    let e = EntryView {
        key: KeyView::MacroSignature { name: call_name(ts[0].value), args },
        value: v,
        location: ts[0].loc,
    };
    assert(parse_signature_value_spec(ts, n - 1, call_name(ts[0].value), args, ts[0].loc) == Ok::<
        (EntryView, int),
        ErrorView,
    >((e, ts.len() as int)));
    assert(parse_macro_call_spec(ts, 0) == Ok::<(EntryView, int), ErrorView>((e, ts.len() as int)));
    assert(parse_statement_spec(ts, 0) == Ok::<(EntryView, int), ErrorView>((e, ts.len() as int)));
    assert(parse_statements_spec(ts, ts.len() as int) == Ok::<Seq<EntryView>, ErrorView>(seq![]));
    assert(seq![e] + Seq::<EntryView>::empty() =~= seq![e]);
}

/// Whether an executable result agrees with a parsed result of the grammar,
/// where `pos` is the index the parser reached.
pub open spec fn agrees<T: View>(r: Result<T, Error>, pos: int, s: Result<(T::V, int), ErrorView>) -> bool {
    match (r, s) {
        (Ok(v), Ok((w, q))) => v@ == w && pos == q,
        (Err(e), Err(x)) => e@ == x,
        _ => false,
    }
}

/// Whether an executable list agrees with a parsed list of the grammar.
pub open spec fn agrees_list(
    r: Result<Vec<String>, Error>,
    pos: int,
    s: Result<(Seq<Seq<char>>, int), ErrorView>,
) -> bool {
    match (r, s) {
        (Ok(v), Ok((w, q))) => strings_view(v@) == w && pos == q,
        (Err(e), Err(x)) => e@ == x,
        _ => false,
    }
}

// ---------------------------------------------------------------------------
// The cursor
/// A cursor over a token sequence with one token of lookahead.
pub struct Parser<'a> {
    pub tokens: &'a [Token],
    pub pos: usize,
}

/// The error for an unexpected token, which it carries.
fn unexpected(t: &Token) -> (e: Error)
    ensures
        e@ == ErrorView::UnexpectedToken(t@),
{
    let value = match &t.token_val {
        TokenValue::Assignment => TokenValue::Assignment,
        TokenValue::Identifier(s) => TokenValue::Identifier(s.clone()),
        TokenValue::IntegerLiteral(n) => TokenValue::IntegerLiteral(*n),
        TokenValue::FloatLiteral(s) => TokenValue::FloatLiteral(s.clone()),
        TokenValue::String(s) => TokenValue::String(s.clone()),
        TokenValue::OpenBrace => TokenValue::OpenBrace,
        TokenValue::CloseBrace => TokenValue::CloseBrace,
        TokenValue::OpenParen => TokenValue::OpenParen,
        TokenValue::CloseParen => TokenValue::CloseParen,
        TokenValue::Comma => TokenValue::Comma,
        TokenValue::Macro => TokenValue::Macro,
        TokenValue::MacroParameter(s) => TokenValue::MacroParameter(s.clone()),
        TokenValue::MacroCall(s) => TokenValue::MacroCall(s.clone()),
    };
    Error::UnexpectedToken(Token::new(value, t.source_loc))
}

impl<'a> Parser<'a> {
    /// The models of the tokens.
    pub open spec fn ts(&self) -> Seq<TokenView> {
        tokens_view(self.tokens@)
    }

    pub open spec fn wf(&self) -> bool {
        self.pos <= self.tokens@.len()
    }

    pub fn new(tokens: &'a [Token]) -> (r: Parser<'a>)
        ensures
            r.tokens@ == tokens@,
            r.pos == 0,
            r.wf(),
    {
        Parser { tokens, pos: 0 }
    }

    /// The next token; moves past it.
    pub fn next(&mut self) -> (r: Option<&'a Token>)
        requires
            old(self).wf(),
        ensures
            final(self).wf(),
            final(self).tokens == old(self).tokens,
            old(self).pos < old(self).tokens@.len() ==> r == Some(
                &old(self).tokens@[old(self).pos as int],
            ) && final(self).pos == old(self).pos + 1,
            old(self).pos >= old(self).tokens@.len() ==> r is None && final(self).pos
                == old(self).pos,
    {
        if self.pos < self.tokens.len() {
            let t = &self.tokens[self.pos];
            self.pos = self.pos + 1;
            Some(t)
        } else {
            None
        }
    }

    /// The next token, without moving past it.
    pub fn peek(&self) -> (r: Option<&'a Token>)
        requires
            self.wf(),
        ensures
            self.pos < self.tokens@.len() ==> r == Some(&self.tokens@[self.pos as int]),
            self.pos >= self.tokens@.len() ==> r is None,
    {
        if self.pos < self.tokens.len() {
            Some(&self.tokens[self.pos])
        } else {
            None
        }
    }

    /// Moves past the next token, which must be of kind `expected`.
    pub fn expect(&mut self, expected: TokenKind) -> (r: Result<&'a Token, Error>)
        requires
            old(self).wf(),
        ensures
            final(self).wf(),
            final(self).tokens == old(self).tokens,
            old(self).pos >= old(self).tokens@.len() ==> final(self).pos == old(self).pos && r
                is Err && r->Err_0@ == ErrorView::UnexpectedEOF,
            old(self).pos < old(self).tokens@.len() ==> final(self).pos == old(self).pos + 1 && ({
                let t = old(self).tokens@[old(self).pos as int];
                if t@.value.kind() == expected {
                    r == Ok::<&Token, Error>(&t)
                } else {
                    r is Err && r->Err_0@ == ErrorView::UnexpectedToken(t@)
                }
            }),
    {
        match self.next() {
            None => Err(Error::UnexpectedEOF),
            Some(t) => if t.token_val.kind() == expected {
                Ok(t)
            } else {
                Err(unexpected(t))
            },
        }
    }

    /// Moves past the next token, which must be an integer literal, and gives
    /// its number.
    pub fn expect_object_id(&mut self) -> (r: Result<u64, Error>)
        requires
            old(self).wf(),
        ensures
            final(self).wf(),
            final(self).tokens == old(self).tokens,
            old(self).pos >= old(self).tokens@.len() ==> final(self).pos == old(self).pos && r
                is Err && r->Err_0@ == ErrorView::UnexpectedEOF,
            old(self).pos < old(self).tokens@.len() ==> final(self).pos == old(self).pos + 1 && ({
                let t = old(self).tokens@[old(self).pos as int];
                match t@.value {
                    TokenValueView::IntegerLiteral(n) => r == Ok::<u64, Error>(n),
                    _ => r is Err && r->Err_0@ == ErrorView::UnexpectedToken(t@),
                }
            }),
    {
        match self.next() {
            None => Err(Error::UnexpectedEOF),
            Some(t) => match &t.token_val {
                TokenValue::IntegerLiteral(n) => Ok(*n),
                _ => Err(unexpected(t)),
            },
        }
    }

    /// Moves past the next token, which must be an identifier, and gives its
    /// text.
    pub fn expect_identifier(&mut self) -> (r: Result<String, Error>)
        requires
            old(self).wf(),
        ensures
            final(self).wf(),
            final(self).tokens == old(self).tokens,
            old(self).pos >= old(self).tokens@.len() ==> final(self).pos == old(self).pos && r
                is Err && r->Err_0@ == ErrorView::UnexpectedEOF,
            old(self).pos < old(self).tokens@.len() ==> final(self).pos == old(self).pos + 1 && ({
                let t = old(self).tokens@[old(self).pos as int];
                match t@.value {
                    TokenValueView::Identifier(s) => r is Ok && r->Ok_0@ == s,
                    _ => r is Err && r->Err_0@ == ErrorView::UnexpectedToken(t@),
                }
            }),
    {
        match self.next() {
            None => Err(Error::UnexpectedEOF),
            Some(t) => match &t.token_val {
                TokenValue::Identifier(s) => Ok(s.clone()),
                _ => Err(unexpected(t)),
            },
        }
    }
}

// ---------------------------------------------------------------------------
// The parser
/// Whether a token may be a word of a key.
fn is_word_token(t: &TokenValue) -> (r: bool)
    ensures
        r == is_word(t@),
{
    match t {
        TokenValue::Identifier(_) | TokenValue::IntegerLiteral(_) => true,
        _ => false,
    }
}

/// The text of a word.
fn word_of(t: &TokenValue) -> (r: String)
    ensures
        r@ == word_text(t@),
{
    match t {
        TokenValue::Identifier(s) => s.clone(),
        TokenValue::IntegerLiteral(n) => decimal_text(*n),
        _ => String::new(),
    }
}

fn parse_value(parser: &mut Parser, depth: usize) -> (r: Result<BlockValue, Error>)
    requires
        old(parser).wf(),
        depth <= MAX_NESTING,
    ensures
        final(parser).wf(),
        final(parser).tokens == old(parser).tokens,
        agrees(
            r,
            final(parser).pos as int,
            parse_value_spec(old(parser).ts(), old(parser).pos as int, depth as nat),
        ),
        r is Ok ==> final(parser).pos > old(parser).pos,
    decreases old(parser).tokens@.len() - old(parser).pos, 0int,
{
    let t = match parser.next() {
        None => {
            return Err(Error::UnexpectedEOF);
        },
        Some(t) => t,
    };
    match &t.token_val {
        TokenValue::OpenBrace => {
            if depth >= MAX_NESTING {
                return Err(Error::RecursionLimitExceeded);
            }
            match parse_block(parser, depth + 1) {
                Ok(b) => Ok(BlockValue::Block(b)),
                Err(e) => Err(e),
            }
        },
        TokenValue::IntegerLiteral(n) => Ok(BlockValue::Literal(decimal_text(*n))),
        TokenValue::String(s) => Ok(BlockValue::Literal(s.clone())),
        TokenValue::MacroParameter(s) => Ok(BlockValue::MacroValue(s.clone())),
        _ => Err(unexpected(t)),
    }
}

#[verifier::loop_isolation(false)]
fn parse_block(parser: &mut Parser, depth: usize) -> (r: Result<KeyValueBlock, Error>)
    requires
        old(parser).wf(),
        depth <= MAX_NESTING,
    ensures
        final(parser).wf(),
        final(parser).tokens == old(parser).tokens,
        agrees(
            r,
            final(parser).pos as int,
            parse_block_spec(old(parser).ts(), old(parser).pos as int, depth as nat),
        ),
        r is Ok ==> final(parser).pos > old(parser).pos,
    decreases old(parser).tokens@.len() - old(parser).pos, 2int,
{
    let ghost ts = parser.ts();
    let ghost begin = parser.pos as int;
    let mut block = KeyValueBlock::new();
    loop
        invariant
            parser.wf(),
            parser.tokens == old(parser).tokens,
            ts == parser.ts(),
            begin <= parser.pos,
            parse_block_spec(ts, begin, depth as nat) == then_prepend_parsed(
                block@,
                parse_block_spec(ts, parser.pos as int, depth as nat),
            ),
        decreases parser.tokens@.len() - parser.pos,
    {
        let t = match parser.peek() {
            None => {
                return Err(Error::UnexpectedEOF);
            },
            Some(t) => t,
        };
        let entry = match &t.token_val {
            TokenValue::CloseBrace => {
                parser.next();
                assert(block@ + Seq::<EntryView>::empty() =~= block@);
                return Ok(block);
            },
            TokenValue::Comma => {
                parser.next();
                continue ;
            },
            TokenValue::Identifier(_) => parse_identifier_key(parser, depth),
            TokenValue::MacroParameter(_) => parse_macro_key(parser, depth),
            _ => {
                return Err(unexpected(t));
            },
        };
        let entry = match entry {
            Ok(e) => e,
            Err(e) => {
                return Err(e);
            },
        };
        match parser.peek() {
            None => {
                return Err(Error::UnexpectedEOF);
            },
            Some(n) => {
                let k = n.token_val.kind();
                if k != TokenKind::Comma && k != TokenKind::CloseBrace {
                    return Err(unexpected(n));
                }
            },
        }
        let ghost e = entry@;
        let ghost before = block@;
        block.add(entry);
        proof {
            assert(before + (seq![e] + Seq::<EntryView>::empty()) =~= block@ + Seq::<
                EntryView,
            >::empty());
            match parse_block_spec(ts, parser.pos as int, depth as nat) {
                Ok((s, q)) => {
                    assert(before + (seq![e] + s) =~= block@ + s);
                },
                Err(_) => {},
            }
        }
    }
}

#[verifier::loop_isolation(false)]
fn parse_identifier_key(parser: &mut Parser, depth: usize) -> (r: Result<KeyValueEntry, Error>)
    requires
        old(parser).wf(),
        old(parser).pos < old(parser).tokens@.len(),
        is_word(old(parser).ts()[old(parser).pos as int].value),
        depth <= MAX_NESTING,
    ensures
        final(parser).wf(),
        final(parser).tokens == old(parser).tokens,
        agrees(
            r,
            final(parser).pos as int,
            parse_name_entry_spec(old(parser).ts(), old(parser).pos as int, depth as nat),
        ),
        r is Ok ==> final(parser).pos > old(parser).pos,
    decreases old(parser).tokens@.len() - old(parser).pos, 1int,
{
    let ghost ts = parser.ts();
    let ghost begin = parser.pos as int;
    let first = parser.next().unwrap();
    let location = first.source_loc;
    let mut key = word_of(&first.token_val);
    proof {
        reveal_strlit(" ");
    }
    loop
        invariant
            parser.wf(),
            parser.tokens == old(parser).tokens,
            ts == parser.ts(),
            begin < parser.pos,
            key@ == joined_words(ts, begin, parser.pos as int),
            key_end(ts, begin + 1) == key_end(ts, parser.pos as int),
        decreases parser.tokens@.len() - parser.pos,
    {
        match parser.peek() {
            Some(t) => {
                if is_word_token(&t.token_val) {
                    let w = word_of(&t.token_val);
                    key.append(" ");
                    key.append(w.as_str());
                    parser.next();
                } else {
                    break ;
                }
            },
            None => {
                break ;
            },
        }
    }
    assert(key_end(ts, parser.pos as int) == parser.pos);
    let t = match parser.peek() {
        None => {
            return Err(Error::UnexpectedEOF);
        },
        Some(t) => t,
    };
    if t.token_val.kind() == TokenKind::Comma {
        return Ok(KeyValueEntry::new(Key::Name(key), location, BlockValue::Empty));
    }
    parser.next();
    match &t.token_val {
        TokenValue::Assignment => match parse_value(parser, depth) {
            Ok(v) => Ok(KeyValueEntry::new(Key::Name(key), location, v)),
            Err(e) => Err(e),
        },
        TokenValue::MacroParameter(m) => {
            let assigned = match parser.peek() {
                Some(n) => n.token_val.kind() == TokenKind::Assignment,
                None => false,
            };
            if assigned {
                parser.next();
                match parse_value(parser, depth) {
                    Ok(v) => Ok(KeyValueEntry::new(Key::MacroValue(m.clone()), location, v)),
                    Err(e) => Err(e),
                }
            } else {
                Ok(KeyValueEntry::new(Key::MacroValue(m.clone()), location, BlockValue::Empty))
            }
        },
        _ => Err(unexpected(t)),
    }
}

fn parse_macro_key(parser: &mut Parser, depth: usize) -> (r: Result<KeyValueEntry, Error>)
    requires
        old(parser).wf(),
        old(parser).pos < old(parser).tokens@.len(),
        depth <= MAX_NESTING,
    ensures
        final(parser).wf(),
        final(parser).tokens == old(parser).tokens,
        agrees(
            r,
            final(parser).pos as int,
            parse_param_entry_spec(old(parser).ts(), old(parser).pos as int, depth as nat),
        ),
        r is Ok ==> final(parser).pos > old(parser).pos,
    decreases old(parser).tokens@.len() - old(parser).pos, 1int,
{
    let first = parser.next().unwrap();
    let location = first.source_loc;
    let name = match &first.token_val {
        TokenValue::MacroParameter(s) => s.clone(),
        _ => String::new(),
    };
    let t = match parser.peek() {
        None => {
            return Err(Error::UnexpectedEOF);
        },
        Some(t) => t,
    };
    if t.token_val.kind() == TokenKind::Comma {
        return Ok(KeyValueEntry::new(Key::MacroValue(name), location, BlockValue::Empty));
    }
    parser.next();
    match &t.token_val {
        TokenValue::Assignment => match parse_value(parser, depth) {
            Ok(v) => Ok(KeyValueEntry::new(Key::MacroValue(name), location, v)),
            Err(e) => Err(e),
        },
        _ => Err(unexpected(t)),
    }
}

/// The item of a parenthesized list that a token stands for.
fn list_item_of(t: &TokenValue, call_site: bool) -> (r: Option<String>)
    ensures
        match r {
            Some(s) => list_item(t@, call_site) == Some(s@),
            None => list_item(t@, call_site) is None,
        },
{
    match t {
        TokenValue::MacroParameter(s) => if call_site {
            None
        } else {
            Some(s.clone())
        },
        TokenValue::Identifier(s) => if call_site {
            Some(s.clone())
        } else {
            None
        },
        TokenValue::IntegerLiteral(n) => if call_site {
            Some(decimal_text(*n))
        } else {
            None
        },
        _ => None,
    }
}

/// A comma-separated list up to and including its `)`.
#[verifier::loop_isolation(false)]
fn parse_list(parser: &mut Parser, call_site: bool) -> (r: Result<Vec<String>, Error>)
    requires
        old(parser).wf(),
    ensures
        final(parser).wf(),
        final(parser).tokens == old(parser).tokens,
        agrees_list(
            r,
            final(parser).pos as int,
            parse_list_spec(old(parser).ts(), old(parser).pos as int, call_site),
        ),
        r is Ok ==> final(parser).pos > old(parser).pos,
{
    let ghost ts = parser.ts();
    let ghost begin = parser.pos as int;
    let mut result: Vec<String> = Vec::new();
    loop
        invariant
            parser.wf(),
            parser.tokens == old(parser).tokens,
            ts == parser.ts(),
            begin <= parser.pos,
            parse_list_spec(ts, begin, call_site) == then_prepend_parsed(
                strings_view(result@),
                parse_list_spec(ts, parser.pos as int, call_site),
            ),
        decreases parser.tokens@.len() - parser.pos,
    {
        let t = match parser.peek() {
            None => {
                return Err(Error::UnexpectedEOF);
            },
            Some(t) => t,
        };
        if t.token_val.kind() == TokenKind::CloseParen {
            parser.next();
            assert(strings_view(result@) + Seq::<Seq<char>>::empty() =~= strings_view(result@));
            return Ok(result);
        }
        let item = match list_item_of(&t.token_val, call_site) {
            Some(s) => s,
            None => {
                return Err(unexpected(t));
            },
        };
        parser.next();
        let n = match parser.peek() {
            None => {
                return Err(Error::UnexpectedEOF);
            },
            Some(n) => n,
        };
        let ghost before = strings_view(result@);
        let ghost it = item@;
        result.push(item);
        assert(strings_view(result@) =~= before + seq![it]);
        let k = n.token_val.kind();
        if k == TokenKind::CloseParen {
            parser.next();
            assert(before + seq![it] =~= strings_view(result@));
            return Ok(result);
        } else if k == TokenKind::Comma {
            parser.next();
            proof {
                match parse_list_spec(ts, parser.pos as int, call_site) {
                    Ok((s, q)) => {
                        assert(before + (seq![it] + s) =~= strings_view(result@) + s);
                    },
                    Err(_) => {},
                }
            }
        } else {
            return Err(unexpected(n));
        }
    }
}

/// The parameter names of a macro definition, after its `(`.
fn parse_macro_parameters(parser: &mut Parser) -> (r: Result<Vec<String>, Error>)
    requires
        old(parser).wf(),
    ensures
        final(parser).wf(),
        final(parser).tokens == old(parser).tokens,
        agrees_list(
            r,
            final(parser).pos as int,
            parse_list_spec(old(parser).ts(), old(parser).pos as int, false),
        ),
        r is Ok ==> final(parser).pos > old(parser).pos,
{
    parse_list(parser, false)
}

/// The argument texts of a macro call, after its `(`.
fn parse_macro_arguments(parser: &mut Parser) -> (r: Result<Vec<String>, Error>)
    requires
        old(parser).wf(),
    ensures
        final(parser).wf(),
        final(parser).tokens == old(parser).tokens,
        agrees_list(
            r,
            final(parser).pos as int,
            parse_list_spec(old(parser).ts(), old(parser).pos as int, true),
        ),
        r is Ok ==> final(parser).pos > old(parser).pos,
{
    parse_list(parser, true)
}

/// `= value`, making the entry keyed by the signature `name(args)`.
fn parse_signature_value(
    parser: &mut Parser,
    name: String,
    args: Vec<String>,
    location: crate::token::SourceLoc,
) -> (r: Result<KeyValueEntry, Error>)
    requires
        old(parser).wf(),
    ensures
        final(parser).wf(),
        final(parser).tokens == old(parser).tokens,
        agrees(
            r,
            final(parser).pos as int,
            parse_signature_value_spec(
                old(parser).ts(),
                old(parser).pos as int,
                name@,
                strings_view(args@),
                location,
            ),
        ),
        r is Ok ==> final(parser).pos > old(parser).pos,
{
    match parser.expect(TokenKind::Assignment) {
        Ok(_) => {},
        Err(e) => {
            return Err(e);
        },
    }
    match parse_value(parser, 0) {
        Ok(v) => Ok(KeyValueEntry::new(Key::MacroSignature { name, args }, location, v)),
        Err(e) => Err(e),
    }
}

fn parse_macro_definition(parser: &mut Parser) -> (r: Result<KeyValueEntry, Error>)
    requires
        old(parser).wf(),
        old(parser).pos < old(parser).tokens@.len(),
    ensures
        final(parser).wf(),
        final(parser).tokens == old(parser).tokens,
        agrees(
            r,
            final(parser).pos as int,
            parse_macro_definition_spec(old(parser).ts(), old(parser).pos as int),
        ),
        r is Ok ==> final(parser).pos > old(parser).pos,
{
    let start = parser.next().unwrap();
    let location = start.source_loc;
    let name = match parser.expect_identifier() {
        Ok(n) => n,
        Err(e) => {
            return Err(e);
        },
    };
    let open = match parser.peek() {
        Some(t) => t.token_val.kind() == TokenKind::OpenParen,
        None => false,
    };
    let args = if open {
        parser.next();
        match parse_macro_parameters(parser) {
            Ok(a) => a,
            Err(e) => {
                return Err(e);
            },
        }
    } else {
        let a: Vec<String> = Vec::new();
        assert(strings_view(a@) =~= Seq::<Seq<char>>::empty());
        a
    };
    parse_signature_value(parser, name, args, location)
}

fn parse_macro_call(parser: &mut Parser) -> (r: Result<KeyValueEntry, Error>)
    requires
        old(parser).wf(),
        old(parser).pos < old(parser).tokens@.len(),
    ensures
        final(parser).wf(),
        final(parser).tokens == old(parser).tokens,
        agrees(
            r,
            final(parser).pos as int,
            parse_macro_call_spec(old(parser).ts(), old(parser).pos as int),
        ),
        r is Ok ==> final(parser).pos > old(parser).pos,
{
    let start = parser.next().unwrap();
    let location = start.source_loc;
    let name = match start.token_val.as_macro_call() {
        Some(n) => n,
        None => String::new(),
    };
    match parser.expect(TokenKind::OpenParen) {
        Ok(_) => {},
        Err(e) => {
            return Err(e);
        },
    }
    let args = match parse_macro_arguments(parser) {
        Ok(a) => a,
        Err(e) => {
            return Err(e);
        },
    };
    parse_signature_value(parser, name, args, location)
}

/// Parses a token sequence into a tree of entries.
///
/// The result is `parse_spec` of the tokens: the top-level statements in
/// order, or the first error, with no partial tree. `diagnostics` is left as
/// it is.
#[verifier::loop_isolation(false)]
pub fn parse(tokens: &[Token], diagnostics: &mut Vec<Diagnostic>) -> (r: Result<
    KeyValueBlock,
    Error,
>)
    ensures
        match r {
            Ok(b) => parse_spec(tokens_view(tokens@)) == Ok::<Seq<EntryView>, ErrorView>(b@),
            Err(e) => parse_spec(tokens_view(tokens@)) == Err::<Seq<EntryView>, ErrorView>(e@),
        },
        final(diagnostics)@ == old(diagnostics)@,
{
    let mut parser = Parser::new(tokens);
    let ghost ts = parser.ts();
    let mut block = KeyValueBlock::new();
    while parser.pos < tokens.len()
        invariant
            parser.wf(),
            parser.tokens@ == tokens@,
            ts == parser.ts(),
            parse_spec(ts) == then_prepend(block@, parse_statements_spec(ts, parser.pos as int)),
        decreases tokens@.len() - parser.pos,
    {
        let t = parser.peek().unwrap();
        let entry = match &t.token_val {
            TokenValue::Identifier(_) => {
                let r = parse_identifier_key(&mut parser, 0);
                let bare = match &r {
                    Ok(e) => match e.value {
                        BlockValue::Empty => true,
                        _ => false,
                    },
                    Err(_) => false,
                };
                if bare {
                    let comma = match parser.peek() {
                        Some(n) => n.token_val.kind() == TokenKind::Comma,
                        None => false,
                    };
                    if comma {
                        parser.next();
                    }
                }
                r
            },
            TokenValue::Macro => parse_macro_definition(&mut parser),
            TokenValue::MacroCall(_) => parse_macro_call(&mut parser),
            _ => {
                return Err(unexpected(t));
            },
        };
        match entry {
            Ok(e) => {
                let ghost ev = e@;
                let ghost before = block@;
                block.add(e);
                proof {
                    lemma_then_prepend_assoc(
                        before,
                        seq![ev],
                        parse_statements_spec(ts, parser.pos as int),
                    );
                    assert(before + seq![ev] =~= block@);
                }
            },
            Err(e) => {
                return Err(e);
            },
        }
    }
    assert(block@ + Seq::<EntryView>::empty() =~= block@);
    Ok(block)
}

} // verus!
