use stoa::diagnostic::Diagnostic;
use stoa::keyvalue::{BlockValue, Key, KeyValueBlock, KeyValueEntry};
use stoa::lexer::lex;
use stoa::parsed_file::ParsedFile;
use stoa::parser::parse;
use stoa::text::decimal_text;
use stoa::token::SourceLoc;

fn entry(key: Key, value: BlockValue) -> KeyValueEntry {
    KeyValueEntry::new(key, SourceLoc::new(1, 1), value)
}

#[test]
fn lookup_finds_the_first_matching_key() {
    let mut block = KeyValueBlock::new();
    block.add(entry(Key::Name("a".to_string()), BlockValue::Literal("1".to_string())));
    block.add(entry(Key::Name("b".to_string()), BlockValue::Empty));
    block.add(entry(Key::Name("a".to_string()), BlockValue::Literal("2".to_string())));
    assert_eq!(block.entries.len(), 3);
    assert_eq!(block.get(Key::Name("a".to_string())), Some(&BlockValue::Literal("1".to_string())));
    assert_eq!(block.get(Key::Name("b".to_string())), Some(&BlockValue::Empty));
    assert_eq!(block.get(Key::Name("c".to_string())), None);
    assert_eq!(block.get(Key::MacroValue("a".to_string())), None);
}

#[test]
fn lookup_compares_macro_signatures_by_name_and_args() {
    let mut block = KeyValueBlock::new();
    let sig = |args: Vec<&str>| Key::MacroSignature {
        name: "m".to_string(),
        args: args.into_iter().map(|a| a.to_string()).collect(),
    };
    block.add(entry(sig(vec!["x"]), BlockValue::Literal("one".to_string())));
    block.add(entry(sig(vec!["x", "y"]), BlockValue::Literal("two".to_string())));
    assert_eq!(block.get(sig(vec!["x", "y"])), Some(&BlockValue::Literal("two".to_string())));
    assert_eq!(block.get(sig(vec!["x"])), Some(&BlockValue::Literal("one".to_string())));
    assert_eq!(block.get(sig(vec!["y"])), None);
    assert_eq!(block.get(sig(vec![])), None);
}

#[test]
fn key_renderings() {
    assert_eq!(Key::Name("a b".to_string()).pretty_string(), "Name(\"a b\")");
    assert_eq!(Key::MacroValue("x".to_string()).pretty_string(), "MacroValue(x)");
    assert_eq!(
        Key::MacroSignature { name: "m".to_string(), args: vec!["x".to_string(), "5".to_string()] }
            .pretty_string(),
        "MacroSignature { name: \"m\", args: [\"x\", \"5\"] }"
    );
    assert_eq!(
        Key::MacroSignature { name: "m".to_string(), args: vec![] }.pretty_string(),
        "MacroSignature { name: \"m\", args: [] }"
    );
}

#[test]
fn short_renderings() {
    assert_eq!(BlockValue::Literal("1".to_string()).short_debug(), "Literal(\"1\")");
    assert_eq!(BlockValue::MacroValue("x".to_string()).short_debug(), "MacroValue(\"x\")");
    assert_eq!(BlockValue::Expression("e".to_string()).short_debug(), "Expression(\"e\")");
    assert_eq!(BlockValue::Empty.short_debug(), "Empty");
    assert_eq!(BlockValue::Block(KeyValueBlock::new()).short_debug(), "Block(...)");
}

#[test]
fn tree_rendering() {
    let mut diags: Vec<Diagnostic> = vec![];
    let tokens = lex("Quotes = { id = 1, flag, }", &mut diags).unwrap();
    let store = parse(&tokens, &mut diags).unwrap();
    let expected = [
        "KeyValueEntry {\n",
        "  key: Name(\"Quotes\"),\n",
        "  value:\n",
        "    Block {\n",
        "      KeyValueEntry {\n",
        "        key: Name(\"id\"),\n",
        "        value:\n",
        "          Literal(\"1\"),\n",
        "      }\n",
        "      KeyValueEntry {\n",
        "        key: Name(\"flag\"),\n",
        "        value:\n",
        "          Empty,\n",
        "      }\n",
        "    },\n",
        "}\n",
    ]
    .concat();
    assert_eq!(store.pretty_string(), expected);
    assert_eq!(KeyValueBlock::new().pretty_string(), "");
}

#[test]
fn entry_rendering_with_indent() {
    let e = entry(Key::MacroValue("p".to_string()), BlockValue::MacroValue("q".to_string()));
    let mut out = String::from(">");
    e.pretty_fmt(&mut out, 1);
    assert_eq!(out, "> KeyValueEntry {\n   key: MacroValue(p),\n   value:\n     MacroValue(\"q\"),\n }\n");
}

#[test]
fn decimal_texts() {
    assert_eq!(decimal_text(0), "0");
    assert_eq!(decimal_text(10), "10");
    assert_eq!(decimal_text(907), "907");
    assert_eq!(decimal_text(u64::MAX), "18446744073709551615");
}

#[test]
fn new_parsed_file_is_empty() {
    let f = ParsedFile::new();
    assert!(f.tree.is_none());
    assert!(f.diagnostics.is_empty());
}
