//! The parsed event model: the typed event sequence a markdown parser
//! produces, each event tagged with its byte range in the source, plus the
//! parsed-document cache and the fenced-code language table.

use vstd::prelude::*;

verus! {

/// A heading's level.
#[derive(Clone, Copy, Debug, PartialEq, Eq, Structural)]
pub enum MdHeading {
    /// Top-level heading.
    H1,
    /// Second-level heading.
    H2,
    /// Third-level heading.
    H3,
    /// Fourth-level heading.
    H4,
    /// Fifth-level heading.
    H5,
    /// Sixth-level heading.
    H6,
}

/// A table column's declared alignment.
#[derive(Clone, Copy, Debug, PartialEq, Eq, Structural)]
pub enum MdAlign {
    /// No alignment given.
    Unspecified,
    /// Left-aligned.
    Left,
    /// Centered.
    Center,
    /// Right-aligned.
    Right,
}

/// How a code block was written: indented, or fenced with backticks and an
/// optional language name.
#[derive(Clone, Debug)]
pub enum CodeFence {
    /// An indented code block.
    Indented,
    /// A fenced code block, with the language name from the opening fence
    /// (empty when the fence declared none).
    Fenced(Vec<u8>),
}

/// A start tag: the opening of a markdown construct.
#[derive(Clone, Debug)]
pub enum MdTag {
    /// A paragraph.
    Paragraph,
    /// A heading with its level.
    Heading(MdHeading),
    /// A block quote.
    BlockQuote,
    /// A code block.
    CodeBlock(CodeFence),
    /// A block of raw HTML.
    HtmlBlock,
    /// A list; `Some` holds an ordered list's first bullet number.
    List(Option<u64>),
    /// One list item.
    Item,
    /// Emphasis (italics).
    Emphasis,
    /// Strong emphasis (bold).
    Strong,
    /// Struck-through text.
    Strikethrough,
    /// A link with its destination.
    Link(Vec<u8>),
    /// A metadata block; carries nothing and renders nothing.
    MetadataBlock,
    /// A table with its column alignments.
    Table(Vec<MdAlign>),
    /// A table's header row.
    TableHead,
    /// A table body row.
    TableRow,
    /// One table cell.
    TableCell,
    /// Any construct this crate does not render; skipped.
    Other,
}

/// An end tag: the closing of a markdown construct.
#[derive(Clone, Copy, Debug, PartialEq, Eq, Structural)]
pub enum MdTagEnd {
    /// End of a paragraph.
    Paragraph,
    /// End of a heading.
    Heading,
    /// End of a block quote.
    BlockQuote,
    /// End of a code block.
    CodeBlock,
    /// End of an HTML block.
    HtmlBlock,
    /// End of a list.
    List,
    /// End of a list item.
    Item,
    /// End of emphasis.
    Emphasis,
    /// End of strong emphasis.
    Strong,
    /// End of struck-through text.
    Strikethrough,
    /// End of a link.
    Link,
    /// End of a table.
    Table,
    /// End of a table's header row.
    TableHead,
    /// End of a table body row.
    TableRow,
    /// End of a table cell.
    TableCell,
    /// End of a construct this crate does not render; skipped.
    Other,
}

/// One parsed event.
#[derive(Clone, Debug)]
pub enum MdEvent {
    /// A construct opens.
    Start(MdTag),
    /// A construct closes.
    End(MdTagEnd),
    /// A run of text, already unescaped by the parser.
    Text(Vec<u8>),
    /// An inline code span; the renderer shows the source bytes of its range.
    Code,
    /// A raw HTML block line; shown as source bytes.
    Html,
    /// Inline raw HTML; shown as source bytes.
    InlineHtml,
    /// A horizontal rule.
    Rule,
    /// A soft line break; rendered as a space.
    SoftBreak,
    /// A hard line break; rendered as a newline.
    HardBreak,
}

/// One event with its byte range in the source.
#[derive(Clone, Debug)]
pub struct MdEventItem {
    /// First source byte of the construct.
    pub start: usize,
    /// One past the last source byte of the construct.
    pub end: usize,
    /// The event itself.
    pub event: MdEvent,
}

/// A resolved fenced-code language: the fence's language name bound to the
/// host's opaque handle for the resolved language.
#[derive(Clone, Debug)]
pub struct LanguageBinding {
    /// The language name as written on the fence.
    pub name: Vec<u8>,
    /// The host's handle for the resolved language.
    pub language: u64,
}

/// The latest successfully parsed state of a document: the source snapshot
/// it was parsed from, the event sequence, and the resolved languages.
#[derive(Clone, Debug)]
pub struct ParsedMarkdown {
    /// The source text this parse saw.
    pub source: Vec<u8>,
    /// The ordered event sequence; insertion order is rendering order.
    pub events: Vec<MdEventItem>,
    /// Resolved syntax languages for fenced code blocks, by fence name.
    pub languages: Vec<LanguageBinding>,
}

impl ParsedMarkdown {
    /// Read access to the source snapshot.
    pub fn source(&self) -> (r: &Vec<u8>)
        ensures
            r == self.source,
    {
        &self.source
    }

    /// Read access to the event sequence.
    pub fn events(&self) -> (r: &Vec<MdEventItem>)
        ensures
            r == self.events,
    {
        &self.events
    }
}

impl Default for ParsedMarkdown {
    /// The empty document: no source, no events, no languages.
    fn default() -> (r: ParsedMarkdown)
        ensures
            r.source@.len() == 0,
            r.events@.len() == 0,
            r.languages@.len() == 0,
    {
        ParsedMarkdown { source: Vec::new(), events: Vec::new(), languages: Vec::new() }
    }
}

/// Decides which name to look up for one fenced block: a named fence is
/// resolved under its own name; a bare fence falls back to the caller's
/// default language, if any; otherwise the block stays unhighlighted.
pub fn query_for_name(name: &Vec<u8>, fallback: &Option<Vec<u8>>) -> (r: Option<Vec<u8>>)
    ensures
        name@.len() > 0 ==> (r matches Some(q) && q@ == name@),
        name@.len() == 0 ==> match fallback {
            Some(f) => r matches Some(q) && q@ == f@,
            None => r is None,
        },
{
    if name.len() > 0 {
        Some(crate::text::subvec(name, 0, name.len()))
    } else {
        match fallback {
            Some(f) => {
                proof {
                    assert(f@.subrange(0, f@.len() as int) =~= f@);
                }
                Some(crate::text::subvec(f, 0, f.len()))
            },
            None => None,
        }
    }
}

/// Records one resolution result: a successful lookup adds a binding, a
/// failed one is skipped, so the block renders as plain text.
pub fn push_language(langs: &mut Vec<LanguageBinding>, name: Vec<u8>, resolved: Option<u64>)
    ensures
        resolved matches Some(id) ==> final(langs)@ == old(langs)@.push(
            LanguageBinding { name, language: id },
        ),
        resolved is None ==> final(langs)@ == old(langs)@,
{
    if let Some(id) = resolved {
        langs.push(LanguageBinding { name, language: id });
    }
}

/// The first binding for a fence name, if any.
pub open spec fn language_lookup(langs: Seq<LanguageBinding>, name: Seq<u8>, i: int) -> Option<u64>
    decreases langs.len() - i when 0 <= i <= langs.len()
{
    if i >= langs.len() {
        None
    } else if langs[i].name@ == name {
        Some(langs[i].language)
    } else {
        language_lookup(langs, name, i + 1)
    }
}

/// Looks up the resolved language for a fence name.
pub fn language_for(langs: &Vec<LanguageBinding>, name: &Vec<u8>) -> (r: Option<u64>)
    ensures
        r == language_lookup(langs@, name@, 0),
{
    let mut i: usize = 0;
    while i < langs.len()
        invariant
            0 <= i <= langs@.len(),
            language_lookup(langs@, name@, 0) == language_lookup(langs@, name@, i as int),
        decreases langs@.len() - i,
    {
        if bytes_eq(&langs[i].name, name) {
            return Some(langs[i].language);
        }
        i = i + 1;
    }
    None
}

/// Compares two byte strings.
pub fn bytes_eq(a: &Vec<u8>, b: &Vec<u8>) -> (r: bool)
    ensures
        r <==> a@ == b@,
{
    if a.len() != b.len() {
        proof {
            assert(a@.len() != b@.len());
        }
        return false;
    }
    let mut i: usize = 0;
    while i < a.len()
        invariant
            0 <= i <= a@.len(),
            a@.len() == b@.len(),
            forall|j: int| 0 <= j < i ==> a@[j] == b@[j],
        decreases a@.len() - i,
    {
        if a[i] != b[i] {
            return false;
        }
        i = i + 1;
    }
    proof {
        assert(a@ =~= b@);
    }
    true
}

} // verus!
