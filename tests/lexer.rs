use stoa::diagnostic::Diagnostic;
use stoa::error::Error;
use stoa::lexer::{lex, lex_classified};
use stoa::text::{classify, CharClass};
use stoa::token::{match_keyword, SourceLoc, Token, TokenKind, TokenValue};

fn tokens_of(text: &str) -> Vec<Token> {
    let mut diags: Vec<Diagnostic> = vec![];
    lex(text, &mut diags).unwrap()
}

fn values_of(text: &str) -> Vec<TokenValue> {
    tokens_of(text).into_iter().map(|t| t.token_val).collect()
}

fn lex_error(text: &str) -> Error {
    let mut diags: Vec<Diagnostic> = vec![];
    lex(text, &mut diags).unwrap_err()
}

#[test]
fn multi_word_identifier() {
    let text = "table 1 Quotes Machines 2";
    let mut diags = vec![];
    let tokens = lex(text, &mut diags).unwrap();
    assert_eq!(tokens[0].token_val, TokenValue::Identifier("table".to_string()));
    assert_eq!(tokens[1].token_val, TokenValue::IntegerLiteral(1));
    assert_eq!(tokens[2].token_val, TokenValue::Identifier(String::from("Quotes")));
    assert_eq!(tokens[3].token_val, TokenValue::Identifier(String::from("Machines")));
    assert_eq!(tokens[4].token_val, TokenValue::IntegerLiteral(2));
}

#[test]
fn multi_word_identifier_after_keyword() {
    let text = "table \"Quotes\" Machines 1.64 Quotes Machines 2";
    let mut diags = vec![];
    let tokens = lex(text, &mut diags).unwrap();
    assert_eq!(tokens[0].token_val, TokenValue::Identifier("table".to_string()));
    assert_eq!(tokens[1].token_val, TokenValue::String("Quotes".to_string()));
    assert_eq!(tokens[2].token_val, TokenValue::Identifier("Machines".to_string()));
    match &tokens[3].token_val {
        TokenValue::FloatLiteral(t) => assert_eq!(t.parse::<f64>().unwrap(), 1.64),
        other => panic!("expected a float literal, got {:?}", other),
    }
    assert_eq!(tokens[4].token_val, TokenValue::Identifier("Quotes".to_string()));
    assert_eq!(tokens[5].token_val, TokenValue::Identifier("Machines".to_string()));
    assert_eq!(tokens[6].token_val, TokenValue::IntegerLiteral(2));
}

#[test]
fn keyword_repeated() {
    let text = "table table table 1 Quotes = {}";
    let mut diags = vec![];
    let tokens = lex(text, &mut diags).unwrap();
    assert_eq!(tokens[0].token_val, TokenValue::Identifier("table".to_string()));
    assert_eq!(tokens[1].token_val, TokenValue::Identifier("table".to_string()));
    assert_eq!(tokens[2].token_val, TokenValue::Identifier("table".to_string()));
    assert_eq!(tokens[3].token_val, TokenValue::IntegerLiteral(1));
    assert_eq!(tokens[4].token_val, TokenValue::Identifier(String::from("Quotes")));
    assert_eq!(tokens[5].token_val, TokenValue::Assignment);
    assert_eq!(tokens[6].token_val, TokenValue::OpenBrace);
    assert_eq!(tokens[7].token_val, TokenValue::CloseBrace);
}

#[test]
fn tokenizing_twice_gives_the_same_tokens() {
    let text = "macro m($a) = { k = $a }\n@m(7) = \"x\"\nname 2, other = 1.5";
    assert_eq!(tokens_of(text), tokens_of(text));
    assert_eq!(lex_error("x = \"open"), lex_error("x = \"open"));
}

#[test]
fn locations_are_those_of_first_characters() {
    let tokens = tokens_of("ab\n  cd = 12\n\"s\" $p");
    let locs: Vec<(u32, u32)> = tokens.iter().map(|t| (t.source_loc.line, t.source_loc.column)).collect();
    assert_eq!(locs, vec![(1, 1), (2, 3), (2, 6), (2, 8), (3, 1), (3, 5)]);
    assert_eq!(tokens[0].source_loc, SourceLoc::new(1, 1));
}

#[test]
fn column_restarts_after_each_newline() {
    let tokens = tokens_of("\n\nx\n y");
    assert_eq!(tokens[0].source_loc, SourceLoc::new(3, 1));
    assert_eq!(tokens[1].source_loc, SourceLoc::new(4, 2));
}

#[test]
fn only_macro_is_a_keyword() {
    assert_eq!(
        values_of("macro x = 1"),
        vec![
            TokenValue::Macro,
            TokenValue::Identifier("x".to_string()),
            TokenValue::Assignment,
            TokenValue::IntegerLiteral(1),
        ]
    );
    assert_eq!(values_of("table"), vec![TokenValue::Identifier("table".to_string())]);
    assert_eq!(values_of("macros"), vec![TokenValue::Identifier("macros".to_string())]);
    assert_eq!(match_keyword("macro"), Some(TokenValue::Macro));
    assert_eq!(match_keyword("table"), None);
    assert_eq!(match_keyword("macr"), None);
}

#[test]
fn punctuation_and_macro_tokens() {
    assert_eq!(
        values_of("@call(a, 2) = { $p }"),
        vec![
            TokenValue::MacroCall("call".to_string()),
            TokenValue::OpenParen,
            TokenValue::Identifier("a".to_string()),
            TokenValue::Comma,
            TokenValue::IntegerLiteral(2),
            TokenValue::CloseParen,
            TokenValue::Assignment,
            TokenValue::OpenBrace,
            TokenValue::MacroParameter("p".to_string()),
            TokenValue::CloseBrace,
        ]
    );
}

#[test]
fn whitespace_and_other_characters_are_skipped() {
    assert_eq!(values_of(""), vec![]);
    assert_eq!(values_of(" \t\n;:_"), vec![]);
    assert_eq!(
        values_of("a_b"),
        vec![TokenValue::Identifier("a".to_string()), TokenValue::Identifier("b".to_string())]
    );
}

#[test]
fn strings_are_taken_verbatim() {
    assert_eq!(values_of("\"a b = {\""), vec![TokenValue::String("a b = {".to_string())]);
    assert_eq!(values_of("\"\""), vec![TokenValue::String(String::new())]);
}

#[test]
fn words_follow_unicode_classes() {
    assert_eq!(values_of("été"), vec![TokenValue::Identifier("été".to_string())]);
    assert_eq!(values_of("a\u{0661}"), vec![TokenValue::Identifier("a\u{0661}".to_string())]);
    assert_eq!(values_of("$x\u{0661}"), vec![TokenValue::MacroParameter("x\u{0661}".to_string())]);
}

#[test]
fn largest_integer_is_accepted() {
    assert_eq!(values_of("18446744073709551615"), vec![TokenValue::IntegerLiteral(u64::MAX)]);
    assert_eq!(values_of("007"), vec![TokenValue::IntegerLiteral(7)]);
}

#[test]
fn integer_too_large_is_malformed() {
    assert_eq!(lex_error("18446744073709551616"), Error::MalformedInteger);
    assert_eq!(lex_error("x = 99999999999999999999999"), Error::MalformedInteger);
}

#[test]
fn second_dot_is_a_malformed_float() {
    assert_eq!(lex_error("1.2.3"), Error::MalformedFloat);
    assert_eq!(values_of("3."), vec![TokenValue::FloatLiteral("3.".to_string())]);
}

#[test]
fn unterminated_string_is_an_error() {
    assert_eq!(lex_error("name = \"abc"), Error::UnterminatedString);
}

#[test]
fn macro_sigil_needs_a_letter() {
    assert_eq!(lex_error("$1"), Error::MalformedMacroParameterName);
    assert_eq!(lex_error("@ x"), Error::MalformedMacroParameterName);
    assert_eq!(lex_error("a = $"), Error::UnexpectedEOF);
    assert_eq!(lex_error("@"), Error::UnexpectedEOF);
}

#[test]
fn first_error_wins() {
    assert_eq!(lex_error("1.2.3 \"open"), Error::MalformedFloat);
    assert_eq!(lex_error("\"open 1.2.3"), Error::UnterminatedString);
}

#[test]
fn tokenizing_with_given_classes() {
    let chars: Vec<char> = "ab 1".chars().collect();
    let classes = classify(&chars);
    assert_eq!(classes, vec![CharClass::Alphabetic, CharClass::Alphabetic, CharClass::Other, CharClass::Numeric]);
    let tokens = lex_classified(&chars, &classes).unwrap();
    assert_eq!(tokens[0].token_val, TokenValue::Identifier("ab".to_string()));
    assert_eq!(tokens[1].token_val, TokenValue::IntegerLiteral(1));
    let all_other = vec![CharClass::Other; chars.len()];
    let tokens = lex_classified(&chars, &all_other).unwrap();
    assert_eq!(tokens.len(), 1);
    assert_eq!(tokens[0].token_val, TokenValue::IntegerLiteral(1));
}

#[test]
fn token_value_accessors() {
    let v = TokenValue::IntegerLiteral(5);
    assert_eq!(v.kind(), TokenKind::IntegerLiteral);
    assert_eq!(v.as_integer(), Some(5));
    assert_eq!(v.as_identifier(), None);
    let w = TokenValue::Identifier("q".to_string());
    assert_eq!(w.kind(), TokenKind::Identifier);
    assert_eq!(w.as_identifier(), Some("q".to_string()));
    assert_eq!(w.as_integer(), None);
    assert_eq!(TokenValue::MacroCall("m".to_string()).as_macro_call(), Some("m".to_string()));
    let t = Token::new(TokenValue::Comma, SourceLoc::new(4, 2));
    assert_eq!(t.token_val.kind(), TokenKind::Comma);
    assert_eq!(t.source_loc.line, 4);
    assert_eq!(t.source_loc.column, 2);
}
