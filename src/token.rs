use vstd::prelude::*;

verus! {

/// A 1-based line and column in the source text.
#[derive(Debug, Clone, Copy, PartialEq, Eq, Structural)]
pub struct SourceLoc {
    pub line: u32,
    pub column: u32,
}

impl SourceLoc {
    pub fn new(line: u32, column: u32) -> (r: SourceLoc)
        ensures
            r.line == line,
            r.column == column,
    {
        SourceLoc { line, column }
    }
}

/// The kind of a token, without its payload.
#[derive(Debug, Clone, Copy, PartialEq, Eq, Structural)]
pub enum TokenKind {
    Assignment,
    Identifier,
    IntegerLiteral,
    FloatLiteral,
    String,
    OpenBrace,
    CloseBrace,
    OpenParen,
    CloseParen,
    Comma,
    Macro,
    MacroParameter,
    MacroCall,
}

/// A token together with the text or number it carries.
///
/// A float literal keeps its source text (digits with exactly one `.`),
/// which always reads as an `f64`.
#[derive(Debug, Clone, PartialEq)]
pub enum TokenValue {
    Assignment,
    Identifier(String),
    IntegerLiteral(u64),
    FloatLiteral(String),
    String(String),
    OpenBrace,
    CloseBrace,
    OpenParen,
    CloseParen,
    Comma,
    Macro,
    MacroParameter(String),
    MacroCall(String),
}

/// The mathematical model of a `TokenValue`: text as character sequences.
pub enum TokenValueView {
    Assignment,
    Identifier(Seq<char>),
    IntegerLiteral(u64),
    FloatLiteral(Seq<char>),
    String(Seq<char>),
    OpenBrace,
    CloseBrace,
    OpenParen,
    CloseParen,
    Comma,
    Macro,
    MacroParameter(Seq<char>),
    MacroCall(Seq<char>),
}

impl TokenValueView {
    pub open spec fn kind(self) -> TokenKind {
        match self {
            TokenValueView::Assignment => TokenKind::Assignment,
            TokenValueView::Identifier(_) => TokenKind::Identifier,
            TokenValueView::IntegerLiteral(_) => TokenKind::IntegerLiteral,
            TokenValueView::FloatLiteral(_) => TokenKind::FloatLiteral,
            TokenValueView::String(_) => TokenKind::String,
            TokenValueView::OpenBrace => TokenKind::OpenBrace,
            TokenValueView::CloseBrace => TokenKind::CloseBrace,
            TokenValueView::OpenParen => TokenKind::OpenParen,
            TokenValueView::CloseParen => TokenKind::CloseParen,
            TokenValueView::Comma => TokenKind::Comma,
            TokenValueView::Macro => TokenKind::Macro,
            TokenValueView::MacroParameter(_) => TokenKind::MacroParameter,
            TokenValueView::MacroCall(_) => TokenKind::MacroCall,
        }
    }
}

impl View for TokenValue {
    type V = TokenValueView;

    open spec fn view(&self) -> TokenValueView {
        match self {
            TokenValue::Assignment => TokenValueView::Assignment,
            TokenValue::Identifier(s) => TokenValueView::Identifier(s@),
            TokenValue::IntegerLiteral(n) => TokenValueView::IntegerLiteral(*n),
            TokenValue::FloatLiteral(s) => TokenValueView::FloatLiteral(s@),
            TokenValue::String(s) => TokenValueView::String(s@),
            TokenValue::OpenBrace => TokenValueView::OpenBrace,
            TokenValue::CloseBrace => TokenValueView::CloseBrace,
            TokenValue::OpenParen => TokenValueView::OpenParen,
            TokenValue::CloseParen => TokenValueView::CloseParen,
            TokenValue::Comma => TokenValueView::Comma,
            TokenValue::Macro => TokenValueView::Macro,
            TokenValue::MacroParameter(s) => TokenValueView::MacroParameter(s@),
            TokenValue::MacroCall(s) => TokenValueView::MacroCall(s@),
        }
    }
}

/// The text of the one reserved word.
pub open spec fn keyword_text() -> Seq<char> {
    seq!['m', 'a', 'c', 'r', 'o']
}

impl TokenValue {
    pub fn kind(&self) -> (r: TokenKind)
        ensures
            r == self@.kind(),
    {
        match self {
            TokenValue::Assignment => TokenKind::Assignment,
            TokenValue::Identifier(_) => TokenKind::Identifier,
            TokenValue::IntegerLiteral(_) => TokenKind::IntegerLiteral,
            TokenValue::FloatLiteral(_) => TokenKind::FloatLiteral,
            TokenValue::String(_) => TokenKind::String,
            TokenValue::OpenBrace => TokenKind::OpenBrace,
            TokenValue::CloseBrace => TokenKind::CloseBrace,
            TokenValue::OpenParen => TokenKind::OpenParen,
            TokenValue::CloseParen => TokenKind::CloseParen,
            TokenValue::Comma => TokenKind::Comma,
            TokenValue::Macro => TokenKind::Macro,
            TokenValue::MacroParameter(_) => TokenKind::MacroParameter,
            TokenValue::MacroCall(_) => TokenKind::MacroCall,
        }
    }

    pub fn as_integer(&self) -> (r: Option<u64>)
        ensures
            r == (match self@ {
                TokenValueView::IntegerLiteral(n) => Some(n),
                _ => None,
            }),
    {
        match self {
            TokenValue::IntegerLiteral(n) => Some(*n),
            _ => None,
        }
    }

    pub fn as_identifier(&self) -> (r: Option<String>)
        ensures
            self@ is Identifier <==> r is Some,
            r is Some ==> self@ == TokenValueView::Identifier(r->0@),
    {
        match self {
            TokenValue::Identifier(s) => Some(s.clone()),
            _ => None,
        }
    }

    pub fn as_macro_call(&self) -> (r: Option<String>)
        ensures
            self@ is MacroCall <==> r is Some,
            r is Some ==> self@ == TokenValueView::MacroCall(r->0@),
    {
        match self {
            TokenValue::MacroCall(s) => Some(s.clone()),
            _ => None,
        }
    }
}

/// A token and the place where its text begins.
#[derive(Debug, Clone, PartialEq)]
pub struct Token {
    pub token_val: TokenValue,
    pub source_loc: SourceLoc,
}

/// The mathematical model of a `Token`.
pub struct TokenView {
    pub value: TokenValueView,
    pub loc: SourceLoc,
}

impl View for Token {
    type V = TokenView;

    open spec fn view(&self) -> TokenView {
        TokenView { value: self.token_val@, loc: self.source_loc }
    }
}

impl Token {
    pub fn new(token_val: TokenValue, source_loc: SourceLoc) -> (r: Token)
        ensures
            r.token_val == token_val,
            r.source_loc == source_loc,
    {
        Token { token_val, source_loc }
    }
}

/// Looks a word up among the reserved words: `macro` is the only one.
pub fn match_keyword(word: &str) -> (r: Option<TokenValue>)
    ensures
        r is Some <==> word@ == keyword_text(),
        r is Some ==> r->0@ == TokenValueView::Macro,
{
    if word.unicode_len() != 5 {
        return None;
    }
    let kw = ['m', 'a', 'c', 'r', 'o'];
    let mut i: usize = 0;
    while i < 5
        invariant
            word@.len() == 5,
            kw@ == keyword_text(),
            i <= 5,
            word@.subrange(0, i as int) == keyword_text().subrange(0, i as int),
        decreases 5 - i,
    {
        if word.get_char(i) != kw[i] {
            assert(word@[i as int] != keyword_text()[i as int]);
            return None;
        }
        assert(word@.subrange(0, i + 1) == word@.subrange(0, i as int).push(word@[i as int]));
        assert(keyword_text().subrange(0, i + 1) == keyword_text().subrange(0, i as int).push(
            keyword_text()[i as int],
        ));
        i += 1;
    }
    assert(word@ == word@.subrange(0, 5));
    assert(keyword_text() == keyword_text().subrange(0, 5));
    Some(TokenValue::Macro)
}

/// The models of a sequence of tokens.
pub open spec fn tokens_view(ts: Seq<Token>) -> Seq<TokenView> {
    ts.map_values(|t: Token| t@)
}

} // verus!
