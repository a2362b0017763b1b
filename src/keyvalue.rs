use vstd::prelude::*;

use crate::token::SourceLoc;

verus! {

/// The key of an entry.
#[derive(Debug)]
pub enum Key {
    /// An ordinary key: one or more words joined by single spaces.
    Name(String),
    /// A key given by a macro parameter (`$name`).
    MacroValue(String),
    /// A macro definition (`args` are its parameter names) or a macro call
    /// site (`args` are the texts of its arguments).
    MacroSignature { name: String, args: Vec<String> },
}

/// The value of an entry.
#[derive(Debug, PartialEq)]
pub enum BlockValue {
    /// The text of an integer or of a quoted string.
    Literal(String),
    Expression(String),
    /// A nested block.
    Block(KeyValueBlock),
    /// A value given by a macro parameter (`$name`).
    MacroValue(String),
    /// The key was given without `=`.
    Empty,
}

/// One key, its value, and where the key begins in the source.
#[derive(Debug, PartialEq)]
pub struct KeyValueEntry {
    pub key: Key,
    pub value: BlockValue,
    pub location: SourceLoc,
}

/// Entries in source order. Lookup by key finds the first match; later
/// entries with the same key are shadowed, not rejected.
#[derive(Debug, PartialEq)]
pub struct KeyValueBlock {
    pub entries: Vec<KeyValueEntry>,
}

// ---------------------------------------------------------------------------
// Models
pub enum KeyView {
    Name(Seq<char>),
    MacroValue(Seq<char>),
    MacroSignature { name: Seq<char>, args: Seq<Seq<char>> },
}

pub enum ValueView {
    Literal(Seq<char>),
    Expression(Seq<char>),
    Block(Seq<EntryView>),
    MacroValue(Seq<char>),
    Empty,
}

pub struct EntryView {
    pub key: KeyView,
    pub value: ValueView,
    pub location: SourceLoc,
}

/// The texts of a sequence of strings.
pub open spec fn strings_view(ss: Seq<String>) -> Seq<Seq<char>> {
    ss.map_values(|s: String| s@)
}

impl View for Key {
    type V = KeyView;

    open spec fn view(&self) -> KeyView {
        match self {
            Key::Name(s) => KeyView::Name(s@),
            Key::MacroValue(s) => KeyView::MacroValue(s@),
            Key::MacroSignature { name, args } => KeyView::MacroSignature {
                name: name@,
                args: strings_view(args@),
            },
        }
    }
}

pub open spec fn value_view(v: BlockValue) -> ValueView
    decreases v, 0int,
{
    match v {
        BlockValue::Literal(s) => ValueView::Literal(s@),
        BlockValue::Expression(s) => ValueView::Expression(s@),
        BlockValue::Block(b) => ValueView::Block(entries_view(b.entries@)),
        BlockValue::MacroValue(s) => ValueView::MacroValue(s@),
        BlockValue::Empty => ValueView::Empty,
    }
}

pub open spec fn entry_view(e: KeyValueEntry) -> EntryView
    decreases e, 1int,
{
    EntryView { key: e.key@, value: value_view(e.value), location: e.location }
}

pub open spec fn entries_view(es: Seq<KeyValueEntry>) -> Seq<EntryView>
    decreases es, 2int,
{
    if es.len() == 0 {
        seq![]
    } else {
        entries_view(es.drop_last()).push(entry_view(es.last()))
    }
}

impl View for BlockValue {
    type V = ValueView;

    open spec fn view(&self) -> ValueView {
        value_view(*self)
    }
}

impl View for KeyValueEntry {
    type V = EntryView;

    open spec fn view(&self) -> EntryView {
        entry_view(*self)
    }
}

impl View for KeyValueBlock {
    type V = Seq<EntryView>;

    open spec fn view(&self) -> Seq<EntryView> {
        entries_view(self.entries@)
    }
}

/// The value of the first entry with key `k`, searching from index `i` on.
pub open spec fn lookup_from(es: Seq<EntryView>, k: KeyView, i: int) -> Option<ValueView>
    decreases es.len() - i,
{
    if i < 0 || i >= es.len() {
        None
    } else if es[i].key == k {
        Some(es[i].value)
    } else {
        lookup_from(es, k, i + 1)
    }
}

/// The value of the first entry with key `k`, if there is one.
pub open spec fn lookup(es: Seq<EntryView>, k: KeyView) -> Option<ValueView> {
    lookup_from(es, k, 0)
}

pub proof fn lemma_entries_view(es: Seq<KeyValueEntry>)
    ensures
        entries_view(es).len() == es.len(),
        forall|i: int| 0 <= i < es.len() ==> #[trigger] entries_view(es)[i] == entry_view(es[i]),
    decreases es.len(),
{
    if es.len() > 0 {
        lemma_entries_view(es.drop_last());
    }
}

impl KeyValueEntry {
    pub fn new(key: Key, location: SourceLoc, value: BlockValue) -> (r: KeyValueEntry)
        ensures
            r@ == (EntryView { key: key@, value: value@, location }),
    {
        KeyValueEntry { key, value, location }
    }
}

impl KeyValueBlock {
    pub fn new() -> (r: KeyValueBlock)
        ensures
            r@ == Seq::<EntryView>::empty(),
    {
        KeyValueBlock { entries: Vec::new() }
    }

    /// Appends an entry after the others.
    pub fn add(&mut self, entry: KeyValueEntry)
        ensures
            final(self)@ == old(self)@.push(entry@),
    {
        let ghost e = entry@;
        self.entries.push(entry);
        assert(self.entries@.drop_last() =~= old(self).entries@);
    }

    /// The value of the first entry whose key equals `key`.
    pub fn get(&self, key: Key) -> (r: Option<&BlockValue>)
        ensures
            match r {
                Some(v) => lookup(self@, key@) == Some(v@),
                None => lookup(self@, key@) is None,
            },
    {
        proof {
            lemma_entries_view(self.entries@);
        }
        let ghost es = self.entries@;
        let mut i: usize = 0;
        while i < self.entries.len()
            invariant
                i <= self.entries@.len(),
                lookup(self@, key@) == lookup_from(self@, key@, i as int),
                es == self.entries@,
                self@.len() == es.len(),
                forall|j: int| 0 <= j < es.len() ==> #[trigger] self@[j] == entry_view(es[j]),
            decreases self.entries@.len() - i,
        {
            if self.entries[i].key == key {
                assert(self@[i as int] == entry_view(self.entries@[i as int]));
                return Some(&self.entries[i].value);
            }
            assert(self@[i as int] == entry_view(self.entries@[i as int]));
            i += 1;
        }
        None
    }
}

// ---------------------------------------------------------------------------
// Key equality
/// Whether two lists of strings hold the same texts in the same order.
fn same_strings(a: &Vec<String>, b: &Vec<String>) -> (r: bool)
    ensures
        r == (strings_view(a@) == strings_view(b@)),
{
    if a.len() != b.len() {
        assert(strings_view(a@).len() != strings_view(b@).len());
        return false;
    }
    let mut i: usize = 0;
    while i < a.len()
        invariant
            a@.len() == b@.len(),
            i <= a@.len(),
            forall|j: int| 0 <= j < i ==> a@[j]@ == b@[j]@,
        decreases a@.len() - i,
    {
        if a[i] != b[i] {
            assert(strings_view(a@)[i as int] != strings_view(b@)[i as int]);
            return false;
        }
        i += 1;
    }
    assert(strings_view(a@) =~= strings_view(b@));
    true
}

impl PartialEq for Key {
    fn eq(&self, other: &Key) -> (r: bool) {
        match (self, other) {
            (Key::Name(a), Key::Name(b)) => *a == *b,
            (Key::MacroValue(a), Key::MacroValue(b)) => *a == *b,
            (
                Key::MacroSignature { name: n1, args: a1 },
                Key::MacroSignature { name: n2, args: a2 },
            ) => *n1 == *n2 && same_strings(a1, a2),
            _ => false,
        }
    }
}

impl vstd::std_specs::cmp::PartialEqSpecImpl for Key {
    open spec fn obeys_eq_spec() -> bool {
        true
    }

    open spec fn eq_spec(&self, other: &Key) -> bool {
        self@ == other@
    }
}

// ---------------------------------------------------------------------------
// Rendering for debugging
/// `n` spaces.
pub open spec fn spaces(n: nat) -> Seq<char> {
    Seq::new(n, |i: int| ' ')
}

/// The texts of `args` in double quotes, separated by `, `.
pub open spec fn quoted_list(args: Seq<Seq<char>>) -> Seq<char>
    decreases args.len(),
{
    if args.len() == 0 {
        seq![]
    } else if args.len() == 1 {
        "\""@ + args[0] + "\""@
    } else {
        quoted_list(args.drop_last()) + ", \""@ + args.last() + "\""@
    }
}

/// How a key is rendered. Texts are written as they are, without escapes.
pub open spec fn key_text(k: KeyView) -> Seq<char> {
    match k {
        KeyView::Name(s) => "Name(\""@ + s + "\")"@,
        KeyView::MacroValue(s) => "MacroValue("@ + s + ")"@,
        KeyView::MacroSignature { name, args } => "MacroSignature { name: \""@ + name
            + "\", args: ["@ + quoted_list(args) + "] }"@,
    }
}

/// How a value is rendered at an indentation of `n` spaces: one line, or
/// for a block, its entries two spaces further in between `Block {` and `},`.
pub open spec fn value_text(v: ValueView, n: usize) -> Seq<char>
    decreases v,
{
    match v {
        ValueView::Literal(s) => spaces(n as nat) + "Literal(\""@ + s + "\"),\n"@,
        ValueView::Expression(s) => spaces(n as nat) + "Expression(\""@ + s + "\"),\n"@,
        ValueView::MacroValue(s) => spaces(n as nat) + "MacroValue(\""@ + s + "\"),\n"@,
        ValueView::Empty => spaces(n as nat) + "Empty,\n"@,
        ValueView::Block(es) => spaces(n as nat) + "Block {\n"@ + block_text(
            es,
            n.saturating_add(2),
        ) + spaces(n as nat) + "},\n"@,
    }
}

/// How an entry is rendered at an indentation of `n` spaces.
pub open spec fn entry_text(e: EntryView, n: usize) -> Seq<char>
    decreases e,
{
    spaces(n as nat) + "KeyValueEntry {\n"@ + spaces(n.saturating_add(2) as nat) + "key: "@
        + key_text(e.key) + ",\n"@ + spaces(n.saturating_add(2) as nat) + "value:\n"@
        + value_text(e.value, n.saturating_add(4)) + spaces(n as nat) + "}\n"@
}

/// How the entries of a block are rendered, one after the other.
pub open spec fn block_text(es: Seq<EntryView>, n: usize) -> Seq<char>
    decreases es,
{
    if es.len() == 0 {
        seq![]
    } else {
        block_text(es.drop_last(), n) + entry_text(es.last(), n)
    }
}

/// The short form of a value: a block stands as `Block(...)`.
pub open spec fn short_text(v: ValueView) -> Seq<char> {
    match v {
        ValueView::Literal(s) => "Literal(\""@ + s + "\")"@,
        ValueView::Expression(s) => "Expression(\""@ + s + "\")"@,
        ValueView::MacroValue(s) => "MacroValue(\""@ + s + "\")"@,
        ValueView::Empty => "Empty"@,
        ValueView::Block(_) => "Block(...)"@,
    }
}

/// Appends `n` spaces.
fn push_spaces(out: &mut String, n: usize)
    ensures
        final(out)@ == old(out)@ + spaces(n as nat),
{
    let mut i: usize = 0;
    while i < n
        invariant
            i <= n,
            out@ == old(out)@ + spaces(i as nat),
        decreases n - i,
    {
        proof {
            reveal_strlit(" ");
        }
        out.append(" ");
        i += 1;
        assert(out@ =~= old(out)@ + spaces(i as nat));
    }
}

impl Key {
    /// The rendering of the key.
    pub fn pretty_string(&self) -> (r: String)
        ensures
            r@ == key_text(self@),
    {
        let mut out = String::new();
        match self {
            Key::Name(s) => {
                out.append("Name(\"");
                out.append(s.as_str());
                out.append("\")");
            },
            Key::MacroValue(s) => {
                out.append("MacroValue(");
                out.append(s.as_str());
                out.append(")");
            },
            Key::MacroSignature { name, args } => {
                out.append("MacroSignature { name: \"");
                out.append(name.as_str());
                out.append("\", args: [");
                let ghost before = out@;
                let mut i: usize = 0;
                while i < args.len()
                    invariant
                        i <= args@.len(),
                        out@ == before + quoted_list(strings_view(args@).subrange(0, i as int)),
                    decreases args@.len() - i,
                {
                    let ghost prev = strings_view(args@).subrange(0, i as int);
                    if i == 0 {
                        out.append("\"");
                    } else {
                        out.append(", \"");
                    }
                    out.append(args[i].as_str());
                    out.append("\"");
                    i += 1;
                    proof {
                        let cur = strings_view(args@).subrange(0, i as int);
                        assert(cur.drop_last() =~= prev);
                        assert(cur.last() == args@[i - 1]@);
                        if i == 1 {
                            assert(prev =~= Seq::<Seq<char>>::empty());
                        }
                    }
                }
                assert(strings_view(args@).subrange(0, args@.len() as int) =~= strings_view(
                    args@,
                ));
                out.append("] }");
            },
        }
        out
    }
}

impl BlockValue {
    /// Appends the rendering of the value at an indentation of `indent`.
    pub fn pretty_fmt(&self, out: &mut String, indent: usize)
        ensures
            final(out)@ == old(out)@ + value_text(self@, indent),
        decreases self, 0int,
    {
        push_spaces(out, indent);
        match self {
            BlockValue::Literal(s) => {
                out.append("Literal(\"");
                out.append(s.as_str());
                out.append("\"),\n");
            },
            BlockValue::Expression(s) => {
                out.append("Expression(\"");
                out.append(s.as_str());
                out.append("\"),\n");
            },
            BlockValue::MacroValue(s) => {
                out.append("MacroValue(\"");
                out.append(s.as_str());
                out.append("\"),\n");
            },
            BlockValue::Empty => {
                out.append("Empty,\n");
            },
            BlockValue::Block(b) => {
                out.append("Block {\n");
                b.pretty_fmt(out, indent.saturating_add(2));
                push_spaces(out, indent);
                out.append("},\n");
            },
        }
    }

    /// The short form of the value.
    pub fn short_debug(&self) -> (r: String)
        ensures
            r@ == short_text(self@),
    {
        let mut out = String::new();
        match self {
            BlockValue::Literal(s) => {
                out.append("Literal(\"");
                out.append(s.as_str());
                out.append("\")");
            },
            BlockValue::Expression(s) => {
                out.append("Expression(\"");
                out.append(s.as_str());
                out.append("\")");
            },
            BlockValue::MacroValue(s) => {
                out.append("MacroValue(\"");
                out.append(s.as_str());
                out.append("\")");
            },
            BlockValue::Empty => {
                out.append("Empty");
            },
            BlockValue::Block(_) => {
                out.append("Block(...)");
            },
        }
        out
    }
}

impl KeyValueEntry {
    /// Appends the rendering of the entry at an indentation of `indent`.
    pub fn pretty_fmt(&self, out: &mut String, indent: usize)
        ensures
            final(out)@ == old(out)@ + entry_text(self@, indent),
        decreases self, 1int,
    {
        push_spaces(out, indent);
        out.append("KeyValueEntry {\n");
        push_spaces(out, indent.saturating_add(2));
        out.append("key: ");
        let k = self.key.pretty_string();
        out.append(k.as_str());
        out.append(",\n");
        push_spaces(out, indent.saturating_add(2));
        out.append("value:\n");
        self.value.pretty_fmt(out, indent.saturating_add(4));
        push_spaces(out, indent);
        out.append("}\n");
    }
}

impl KeyValueBlock {
    /// Appends the rendering of the entries at an indentation of `indent`.
    pub fn pretty_fmt(&self, out: &mut String, indent: usize)
        ensures
            final(out)@ == old(out)@ + block_text(self@, indent),
        decreases self, 2int,
    {
        let ghost start = out@;
        let mut i: usize = 0;
        while i < self.entries.len()
            invariant
                i <= self.entries@.len(),
                out@ == start + block_text(entries_view(self.entries@.subrange(0, i as int)), indent),
            decreases self.entries@.len() - i,
        {
            let ghost prev = self.entries@.subrange(0, i as int);
            self.entries[i].pretty_fmt(out, indent);
            i += 1;
            proof {
                let cur = self.entries@.subrange(0, i as int);
                assert(cur.drop_last() =~= prev);
                assert(entries_view(cur).drop_last() == entries_view(prev));
            }
        }
        assert(self.entries@.subrange(0, self.entries@.len() as int) =~= self.entries@);
    }

    /// The rendering of the block: each entry with its key and value, nested
    /// blocks indented further.
    pub fn pretty_string(&self) -> (r: String)
        ensures
            r@ == block_text(self@, 0),
    {
        let mut out = String::new();
        self.pretty_fmt(&mut out, 0);
        out
    }
}

} // verus!
