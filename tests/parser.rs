use stoa::diagnostic::Diagnostic;
use stoa::error::Error;
use stoa::keyvalue::{BlockValue, Key, KeyValueBlock, KeyValueEntry};
use stoa::lexer::lex;
use stoa::parser::{parse, Parser, MAX_NESTING};
use stoa::token::{SourceLoc, Token, TokenKind, TokenValue};

fn tok(value: TokenValue, line: u32, column: u32) -> Token {
    Token::new(value, SourceLoc::new(line, column))
}

fn ident(s: &str) -> TokenValue {
    TokenValue::Identifier(s.to_string())
}

fn name(s: &str) -> Key {
    Key::Name(s.to_string())
}

fn literal(s: &str) -> BlockValue {
    BlockValue::Literal(s.to_string())
}

fn parse_text(text: &str) -> Result<KeyValueBlock, Error> {
    let mut diags: Vec<Diagnostic> = vec![];
    let tokens = lex(text, &mut diags).unwrap();
    parse(&tokens, &mut diags)
}

fn inner(value: &BlockValue) -> &KeyValueBlock {
    match value {
        BlockValue::Block(b) => b,
        other => panic!("expected a block, got {:?}", other),
    }
}

#[test]
fn table_parse() {
    let tokens = vec![
        tok(ident("Quotes"), 1, 9),
        tok(TokenValue::Assignment, 1, 16),
        tok(TokenValue::OpenBrace, 1, 18),
        tok(ident("id"), 2, 4),
        tok(TokenValue::Assignment, 2, 7),
        tok(TokenValue::IntegerLiteral(1), 2, 7),
        tok(TokenValue::Comma, 2, 9),
        tok(ident("type"), 2, 4),
        tok(TokenValue::Assignment, 2, 7),
        tok(TokenValue::String("Table".to_string()), 2, 7),
        tok(TokenValue::CloseBrace, 1, 19),
        tok(ident("Machines"), 1, 9),
        tok(TokenValue::Assignment, 1, 16),
        tok(TokenValue::OpenBrace, 1, 18),
        tok(ident("id"), 2, 4),
        tok(TokenValue::Assignment, 2, 7),
        tok(TokenValue::IntegerLiteral(2), 2, 7),
        tok(TokenValue::Comma, 2, 9),
        tok(ident("type"), 2, 4),
        tok(TokenValue::Assignment, 2, 7),
        tok(TokenValue::String("Table".to_string()), 2, 7),
        tok(TokenValue::CloseBrace, 1, 19),
        tok(ident("Quotes"), 1, 9),
        tok(ident("Machines"), 1, 9),
        tok(TokenValue::Assignment, 1, 16),
        tok(TokenValue::OpenBrace, 1, 18),
        tok(ident("id"), 2, 4),
        tok(TokenValue::Assignment, 2, 7),
        tok(TokenValue::IntegerLiteral(2), 2, 7),
        tok(TokenValue::Comma, 2, 9),
        tok(ident("type"), 2, 4),
        tok(TokenValue::Assignment, 2, 7),
        tok(TokenValue::String("Table".to_string()), 2, 7),
        tok(TokenValue::CloseBrace, 1, 19),
    ];

    let mut diagnostics = vec![];
    let store = parse(&tokens, &mut diagnostics).unwrap();
    for entry in &store.entries {
        println!("{:?}", entry);
    }
    assert_eq!(store.entries.len(), 3);
    assert_eq!(store.entries[2].key, name("Quotes Machines"));
    assert_eq!(store.entries[2].location, SourceLoc::new(1, 9));
    assert!(diagnostics.is_empty());
}

#[test]
fn keyvalue_blocks() {
    let _ = KeyValueBlock { entries: vec![] };
}

#[test]
fn block_shape() {
    let store = parse_text("Quotes = { id = 1, type = \"Table\" }").unwrap();
    assert_eq!(store.entries.len(), 1);
    assert_eq!(store.entries[0].key, name("Quotes"));
    assert_eq!(store.entries[0].location, SourceLoc::new(1, 1));
    let block = inner(&store.entries[0].value);
    assert_eq!(block.entries.len(), 2);
    assert_eq!(block.entries[0].key, name("id"));
    assert_eq!(block.entries[0].value, literal("1"));
    assert_eq!(block.entries[0].location, SourceLoc::new(1, 12));
    assert_eq!(block.entries[1].key, name("type"));
    assert_eq!(block.entries[1].value, literal("Table"));
}

#[test]
fn macro_definition_shape() {
    let tokens = vec![
        tok(TokenValue::Macro, 1, 1),
        tok(ident("default_id"), 1, 7),
        tok(TokenValue::OpenParen, 1, 17),
        tok(TokenValue::MacroParameter("x".to_string()), 1, 18),
        tok(TokenValue::CloseParen, 1, 20),
        tok(TokenValue::Assignment, 1, 22),
        tok(TokenValue::OpenBrace, 1, 24),
        tok(ident("id"), 1, 26),
        tok(TokenValue::Assignment, 1, 29),
        tok(TokenValue::MacroParameter("x".to_string()), 1, 31),
        tok(TokenValue::CloseBrace, 1, 34),
    ];
    let mut diags = vec![];
    let store = parse(&tokens, &mut diags).unwrap();
    assert_eq!(store.entries.len(), 1);
    assert_eq!(
        store.entries[0].key,
        Key::MacroSignature { name: "default_id".to_string(), args: vec!["x".to_string()] }
    );
    assert_eq!(store.entries[0].location, SourceLoc::new(1, 1));
    let body = inner(&store.entries[0].value);
    assert_eq!(body.entries.len(), 1);
    assert_eq!(body.entries[0].key, name("id"));
    assert_eq!(body.entries[0].value, BlockValue::MacroValue("x".to_string()));
}

#[test]
fn macro_definition_from_text() {
    let store = parse_text("macro defaultid($x, $y) = { id = $x }\nmacro plain = 3").unwrap();
    assert_eq!(store.entries.len(), 2);
    assert_eq!(
        store.entries[0].key,
        Key::MacroSignature {
            name: "defaultid".to_string(),
            args: vec!["x".to_string(), "y".to_string()],
        }
    );
    assert_eq!(store.entries[1].key, Key::MacroSignature { name: "plain".to_string(), args: vec![] });
    assert_eq!(store.entries[1].value, literal("3"));
    assert_eq!(store.entries[1].location, SourceLoc::new(2, 1));
}

#[test]
fn macro_call_shape() {
    let tokens = vec![
        tok(TokenValue::MacroCall("default_id".to_string()), 1, 1),
        tok(TokenValue::OpenParen, 1, 12),
        tok(TokenValue::IntegerLiteral(5), 1, 13),
        tok(TokenValue::CloseParen, 1, 14),
        tok(TokenValue::Assignment, 1, 16),
        tok(TokenValue::OpenBrace, 1, 18),
        tok(ident("x"), 1, 20),
        tok(TokenValue::Assignment, 1, 22),
        tok(TokenValue::IntegerLiteral(5), 1, 24),
        tok(TokenValue::CloseBrace, 1, 26),
    ];
    let mut diags = vec![];
    let store = parse(&tokens, &mut diags).unwrap();
    assert_eq!(store.entries.len(), 1);
    assert_eq!(
        store.entries[0].key,
        Key::MacroSignature { name: "default_id".to_string(), args: vec!["5".to_string()] }
    );
    let body = inner(&store.entries[0].value);
    assert_eq!(body.entries.len(), 1);
    assert_eq!(body.entries[0].key, name("x"));
    assert_eq!(body.entries[0].value, literal("5"));
}

#[test]
fn macro_call_arguments_from_text() {
    let store = parse_text("@m(a, 12, b) = $v").unwrap();
    assert_eq!(
        store.entries[0].key,
        Key::MacroSignature {
            name: "m".to_string(),
            args: vec!["a".to_string(), "12".to_string(), "b".to_string()],
        }
    );
    assert_eq!(store.entries[0].value, BlockValue::MacroValue("v".to_string()));
    let empty = parse_text("@m() = 1").unwrap();
    assert_eq!(empty.entries[0].key, Key::MacroSignature { name: "m".to_string(), args: vec![] });
}

#[test]
fn unterminated_block_fails_at_end_of_input() {
    assert_eq!(parse_text("Quotes = { id = 1").unwrap_err(), Error::UnexpectedEOF);
    assert_eq!(parse_text("Quotes = {").unwrap_err(), Error::UnexpectedEOF);
    assert_eq!(parse_text("Quotes =").unwrap_err(), Error::UnexpectedEOF);
}

#[test]
fn stray_top_level_token_is_unexpected() {
    assert_eq!(
        parse_text(",").unwrap_err(),
        Error::UnexpectedToken(tok(TokenValue::Comma, 1, 1))
    );
    assert_eq!(
        parse_text("a = 1 }").unwrap_err(),
        Error::UnexpectedToken(tok(TokenValue::CloseBrace, 1, 7))
    );
}

#[test]
fn entries_need_a_separator_inside_blocks() {
    assert_eq!(
        parse_text("q = { a = 1 b = 2 }").unwrap_err(),
        Error::UnexpectedToken(tok(ident("b"), 1, 13))
    );
}

#[test]
fn commas_are_tolerated_in_blocks() {
    let store = parse_text("q = { , a = 1,, b = \"x\", }").unwrap();
    let block = inner(&store.entries[0].value);
    assert_eq!(block.entries.len(), 2);
    assert_eq!(block.entries[1].value, literal("x"));
}

#[test]
fn multi_word_keys_join_with_spaces() {
    let store = parse_text("table 1 Quotes = {}").unwrap();
    assert_eq!(store.entries[0].key, name("table 1 Quotes"));
    assert_eq!(inner(&store.entries[0].value).entries.len(), 0);
}

#[test]
fn key_without_value_is_empty() {
    let store = parse_text("flag one, other = 2").unwrap();
    assert_eq!(store.entries.len(), 2);
    assert_eq!(store.entries[0].key, name("flag one"));
    assert_eq!(store.entries[0].value, BlockValue::Empty);
    assert_eq!(store.entries[1].value, literal("2"));
}

#[test]
fn macro_parameter_keys() {
    let store = parse_text("q = { $a = 1, $b, c $d = \"v\", e $f }").unwrap();
    let block = inner(&store.entries[0].value);
    assert_eq!(block.entries.len(), 4);
    assert_eq!(block.entries[0].key, Key::MacroValue("a".to_string()));
    assert_eq!(block.entries[0].value, literal("1"));
    assert_eq!(block.entries[1].key, Key::MacroValue("b".to_string()));
    assert_eq!(block.entries[1].value, BlockValue::Empty);
    assert_eq!(block.entries[2].key, Key::MacroValue("d".to_string()));
    assert_eq!(block.entries[2].value, literal("v"));
    assert_eq!(block.entries[3].key, Key::MacroValue("f".to_string()));
    assert_eq!(block.entries[3].value, BlockValue::Empty);
}

#[test]
fn value_must_be_a_value_token() {
    assert_eq!(
        parse_text("a = 1.5").unwrap_err(),
        Error::UnexpectedToken(tok(TokenValue::FloatLiteral("1.5".to_string()), 1, 5))
    );
    assert_eq!(
        parse_text("a = b").unwrap_err(),
        Error::UnexpectedToken(tok(ident("b"), 1, 5))
    );
}

#[test]
fn macro_errors() {
    assert_eq!(
        parse_text("macro 1 = 2").unwrap_err(),
        Error::UnexpectedToken(tok(TokenValue::IntegerLiteral(1), 1, 7))
    );
    assert_eq!(parse_text("macro").unwrap_err(), Error::UnexpectedEOF);
    assert_eq!(parse_text("macro m($a").unwrap_err(), Error::UnexpectedEOF);
    assert_eq!(
        parse_text("macro m(a) = 1").unwrap_err(),
        Error::UnexpectedToken(tok(ident("a"), 1, 9))
    );
    assert_eq!(
        parse_text("@m = 1").unwrap_err(),
        Error::UnexpectedToken(tok(TokenValue::Assignment, 1, 4))
    );
    assert_eq!(
        parse_text("@m(1 2) = 1").unwrap_err(),
        Error::UnexpectedToken(tok(TokenValue::IntegerLiteral(2), 1, 6))
    );
    assert_eq!(
        parse_text("@m($p) = 1").unwrap_err(),
        Error::UnexpectedToken(tok(TokenValue::MacroParameter("p".to_string()), 1, 4))
    );
}

#[test]
fn nesting_is_bounded() {
    let mut deep = String::from("a = ");
    for _ in 0..MAX_NESTING {
        deep.push_str("{ b = ");
    }
    deep.push('1');
    for _ in 0..MAX_NESTING {
        deep.push_str(" }");
    }
    assert!(parse_text(&deep).is_ok());
    let mut deeper = String::from("a = ");
    for _ in 0..MAX_NESTING + 1 {
        deeper.push_str("{ b = ");
    }
    deeper.push('1');
    for _ in 0..MAX_NESTING + 1 {
        deeper.push_str(" }");
    }
    assert_eq!(parse_text(&deeper).unwrap_err(), Error::RecursionLimitExceeded);
}

#[test]
fn empty_input_is_an_empty_tree() {
    let store = parse_text("").unwrap();
    assert!(store.entries.is_empty());
}

#[test]
fn parser_cursor() {
    let tokens = vec![tok(ident("a"), 1, 1), tok(TokenValue::IntegerLiteral(9), 1, 3)];
    let mut parser = Parser::new(&tokens);
    assert_eq!(parser.peek().unwrap().token_val, ident("a"));
    assert_eq!(parser.expect_identifier().unwrap(), "a".to_string());
    assert_eq!(parser.expect_object_id().unwrap(), 9);
    assert!(parser.next().is_none());
    assert_eq!(parser.expect(TokenKind::Comma).unwrap_err(), Error::UnexpectedEOF);
    let mut again = Parser::new(&tokens);
    assert_eq!(
        again.expect(TokenKind::Comma).unwrap_err(),
        Error::UnexpectedToken(tok(ident("a"), 1, 1))
    );
    assert_eq!(again.expect(TokenKind::IntegerLiteral).unwrap().token_val, TokenValue::IntegerLiteral(9));
}

#[test]
fn integer_values_become_decimal_text() {
    let tokens = vec![
        tok(ident("n"), 1, 1),
        tok(TokenValue::Assignment, 1, 3),
        tok(TokenValue::IntegerLiteral(1200), 1, 5),
        tok(ident("m"), 2, 1),
        tok(TokenValue::IntegerLiteral(0), 2, 3),
        tok(TokenValue::Comma, 2, 4),
    ];
    let mut diags = vec![];
    let store = parse(&tokens, &mut diags).unwrap();
    assert_eq!(store.entries[0].value, literal("1200"));
    assert_eq!(store.entries[1].key, name("m 0"));
    let _ = KeyValueEntry::new(name("k"), SourceLoc::new(1, 1), BlockValue::Empty);
}

#[test]
fn keys_without_values_in_blocks_take_one_comma() {
    let store = parse_text("q = { a, b = 1 }").unwrap();
    let block = inner(&store.entries[0].value);
    assert_eq!(block.entries.len(), 2);
    assert_eq!(block.entries[0].key, name("a"));
    assert_eq!(block.entries[0].value, BlockValue::Empty);
    assert_eq!(block.entries[1].key, name("b"));
    assert_eq!(block.entries[1].value, literal("1"));
    let err = parse_text("q = { x y, $p, z }").unwrap_err();
    assert_eq!(err, Error::UnexpectedToken(tok(TokenValue::CloseBrace, 1, 18)));
    let store = parse_text("q = { x y, $p, z, }").unwrap();
    assert_eq!(inner(&store.entries[0].value).entries.len(), 3);
}

#[test]
fn key_alone_before_close_brace_is_unexpected() {
    assert_eq!(
        parse_text("q = { a }").unwrap_err(),
        Error::UnexpectedToken(tok(TokenValue::CloseBrace, 1, 9))
    );
    assert_eq!(
        parse_text("q = { $a }").unwrap_err(),
        Error::UnexpectedToken(tok(TokenValue::CloseBrace, 1, 10))
    );
}

#[test]
fn top_level_key_without_value_takes_its_comma() {
    let store = parse_text("a, b = 1").unwrap();
    assert_eq!(store.entries.len(), 2);
    assert_eq!(store.entries[0].key, name("a"));
    assert_eq!(store.entries[0].value, BlockValue::Empty);
    assert_eq!(store.entries[1].value, literal("1"));
    assert_eq!(
        parse_text("a,, b = 1").unwrap_err(),
        Error::UnexpectedToken(tok(TokenValue::Comma, 1, 3))
    );
}

#[test]
fn macro_call_value_is_the_body_parsed_alone() {
    let call = parse_text("@m(1, a) = { x = $p, y = { z = 2 } }").unwrap();
    // The body starts at the same column in both texts.
    let plain = parse_text("k        = { x = $p, y = { z = 2 } }").unwrap();
    assert_eq!(call.entries.len(), 1);
    assert_eq!(plain.entries.len(), 1);
    assert_eq!(call.entries[0].value, plain.entries[0].value);
    assert_eq!(
        call.entries[0].key,
        Key::MacroSignature { name: "m".to_string(), args: vec!["1".to_string(), "a".to_string()] }
    );
}
