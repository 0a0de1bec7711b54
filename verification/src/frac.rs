//! The in-memory document model: an `IntermediateRep` holds a sequence of
//! document elements, optional footnotes, and metadata.  Each exec type has a
//! spec-level view (`...View`) used by the codec contracts.

use vstd::prelude::*;

verus! {

// ---------------------------------------------------------------------------
// Spec-level views of the document model
// ---------------------------------------------------------------------------

/// Spec view of an inline style.
#[verifier::ext_equal]
pub enum StyleView {
    Italic,
    Bold,
    Code,
    Link { href: Seq<char> },
    Strikethrough,
    Highlight,
}

/// Spec view of an inline text span.
#[verifier::ext_equal]
pub struct SpanView {
    pub text: Seq<char>,
    pub styles: Seq<StyleView>,
    pub footnote: Option<Seq<char>>,
    pub checkbox: Option<bool>,
}

/// Spec view of a header element.
#[verifier::ext_equal]
pub struct HeaderView {
    pub level: u8,
    pub text: SpanView,
}

/// Spec view of a paragraph element.
#[verifier::ext_equal]
pub struct ParagraphView {
    pub text: Seq<SpanView>,
}

/// Spec view of a citation element.
#[verifier::ext_equal]
pub struct CitationView {
    pub text: Seq<SpanView>,
    pub src: Option<Seq<char>>,
    pub date: Option<Seq<char>>,
}

/// Spec view of a list element.
#[verifier::ext_equal]
pub struct ListView {
    pub items: Seq<SpanView>,
    pub checkboxes: Option<Seq<bool>>,
}

/// Spec view of an image element.
#[verifier::ext_equal]
pub struct ImageView {
    pub title: Seq<char>,
    pub source: Seq<char>,
    pub decription: Seq<char>,
}

/// Spec view of a table element.
#[verifier::ext_equal]
pub struct TableView {
    pub title: Seq<char>,
    pub headers: Seq<SpanView>,
    pub rows: Seq<Seq<SpanView>>,
}

/// Spec view of a code block element.
#[verifier::ext_equal]
pub struct CodeBlockView {
    pub language: Option<Seq<char>>,
    pub code: Seq<char>,
}

/// Spec view of a document element.
#[verifier::ext_equal]
pub enum DocElmView {
    Header(HeaderView),
    Paragraph(ParagraphView),
    Citation(CitationView),
    List(ListView),
    Image(ImageView),
    CodeBlock(CodeBlockView),
    Table(TableView),
    Break,
}

/// Spec view of a footnote.
#[verifier::ext_equal]
pub struct FootnoteView {
    pub title: Seq<char>,
    pub body: Seq<DocElmView>,
}

// ---------------------------------------------------------------------------
// Exec document model
// ---------------------------------------------------------------------------

#[derive(Debug, Clone, PartialEq)]
pub struct IntermediateRep {
    /// Size of the document in bytes.
    pub size: u64,
    /// Document elements.
    pub body: Vec<DocElm>,
    /// Number of elements.
    pub count: usize,
    /// Unix timestamp of last modification.
    pub last_modified: Option<u64>,
    /// Document author.
    pub author: Option<String>,
    /// Document title.
    pub title: String,
    /// Checksum or hash for integrity.
    pub checksum: Option<String>,
    /// Category of the document.
    pub tags: Option<Vec<String>>,
    /// Footnotes (internal links).
    pub footnotes: Option<Vec<Footnote>>,
}

#[derive(Debug, Clone, PartialEq)]
pub struct Footnote {
    pub title: String,
    pub body: Vec<DocElm>,
}

#[derive(Debug, Clone, PartialEq)]
pub enum DocElm {
    Header(Header),
    Paragraph(Paragraph),
    Citation(Citation),
    List(List),
    Image(Image),
    CodeBlock(CodeBlock),
    Table(Table),
    Break,
}

#[derive(Debug, Clone, PartialEq)]
pub enum Style {
    Italic,
    Bold,
    Code,
    Link { href: String },
    Strikethrough,
    Highlight,
}

#[derive(Debug, Clone, PartialEq)]
pub struct Header {
    pub level: u8,
    pub text: Span,
}

#[derive(Debug, Clone, PartialEq)]
pub struct Paragraph {
    pub text: Vec<Span>,
}

#[derive(Debug, Clone, PartialEq)]
pub struct Citation {
    pub text: Vec<Span>,
    pub src: Option<String>,
    pub date: Option<String>,
}

#[derive(Debug, Clone, PartialEq)]
pub struct List {
    pub items: Vec<Span>,
    pub checkboxes: Option<Vec<bool>>,
}

#[derive(Debug, Clone, PartialEq)]
pub struct Span {
    pub text: String,
    pub styles: Vec<Style>,
    pub footnote: Option<String>,
    pub checkbox: Option<bool>,
}

#[derive(Debug, Clone, PartialEq)]
pub struct Image {
    pub title: String,
    pub source: String,
    pub decription: String,
}

#[derive(Debug, Clone, PartialEq)]
pub struct Table {
    pub title: String,
    pub headers: Vec<Span>,
    pub rows: Vec<Vec<Span>>,
}

#[derive(Debug, Clone, PartialEq)]
pub struct CodeBlock {
    pub language: Option<String>,
    pub code: String,
}

// ---------------------------------------------------------------------------
// Views
// ---------------------------------------------------------------------------

impl View for Style {
    type V = StyleView;

    open spec fn view(&self) -> StyleView {
        match self {
            Style::Italic => StyleView::Italic,
            Style::Bold => StyleView::Bold,
            Style::Code => StyleView::Code,
            Style::Link { href } => StyleView::Link { href: href@ },
            Style::Strikethrough => StyleView::Strikethrough,
            Style::Highlight => StyleView::Highlight,
        }
    }
}

impl DeepView for Style {
    type V = StyleView;

    open spec fn deep_view(&self) -> StyleView {
        self.view()
    }
}

impl View for Span {
    type V = SpanView;

    open spec fn view(&self) -> SpanView {
        SpanView {
            text: self.text@,
            styles: self.styles.deep_view(),
            footnote: self.footnote.deep_view(),
            checkbox: self.checkbox,
        }
    }
}

impl DeepView for Span {
    type V = SpanView;

    open spec fn deep_view(&self) -> SpanView {
        self.view()
    }
}

impl View for Header {
    type V = HeaderView;

    open spec fn view(&self) -> HeaderView {
        HeaderView { level: self.level, text: self.text@ }
    }
}

impl DeepView for Header {
    type V = HeaderView;

    open spec fn deep_view(&self) -> HeaderView {
        self.view()
    }
}

impl View for Paragraph {
    type V = ParagraphView;

    open spec fn view(&self) -> ParagraphView {
        ParagraphView { text: self.text.deep_view() }
    }
}

impl DeepView for Paragraph {
    type V = ParagraphView;

    open spec fn deep_view(&self) -> ParagraphView {
        self.view()
    }
}

impl View for Citation {
    type V = CitationView;

    open spec fn view(&self) -> CitationView {
        CitationView {
            text: self.text.deep_view(),
            src: self.src.deep_view(),
            date: self.date.deep_view(),
        }
    }
}

impl DeepView for Citation {
    type V = CitationView;

    open spec fn deep_view(&self) -> CitationView {
        self.view()
    }
}

impl View for List {
    type V = ListView;

    open spec fn view(&self) -> ListView {
        ListView { items: self.items.deep_view(), checkboxes: self.checkboxes.deep_view() }
    }
}

impl DeepView for List {
    type V = ListView;

    open spec fn deep_view(&self) -> ListView {
        self.view()
    }
}

impl View for Image {
    type V = ImageView;

    open spec fn view(&self) -> ImageView {
        ImageView { title: self.title@, source: self.source@, decription: self.decription@ }
    }
}

impl DeepView for Image {
    type V = ImageView;

    open spec fn deep_view(&self) -> ImageView {
        self.view()
    }
}

impl View for Table {
    type V = TableView;

    open spec fn view(&self) -> TableView {
        TableView {
            title: self.title@,
            headers: self.headers.deep_view(),
            rows: self.rows.deep_view(),
        }
    }
}

impl DeepView for Table {
    type V = TableView;

    open spec fn deep_view(&self) -> TableView {
        self.view()
    }
}

impl View for CodeBlock {
    type V = CodeBlockView;

    open spec fn view(&self) -> CodeBlockView {
        CodeBlockView { language: self.language.deep_view(), code: self.code@ }
    }
}

impl DeepView for CodeBlock {
    type V = CodeBlockView;

    open spec fn deep_view(&self) -> CodeBlockView {
        self.view()
    }
}

impl View for DocElm {
    type V = DocElmView;

    open spec fn view(&self) -> DocElmView {
        match self {
            DocElm::Header(h) => DocElmView::Header(h.deep_view()),
            DocElm::Paragraph(p) => DocElmView::Paragraph(p.deep_view()),
            DocElm::Citation(c) => DocElmView::Citation(c.deep_view()),
            DocElm::List(l) => DocElmView::List(l.deep_view()),
            DocElm::Image(i) => DocElmView::Image(i.deep_view()),
            DocElm::CodeBlock(c) => DocElmView::CodeBlock(c.deep_view()),
            DocElm::Table(t) => DocElmView::Table(t.deep_view()),
            DocElm::Break => DocElmView::Break,
        }
    }
}

impl DeepView for DocElm {
    type V = DocElmView;

    open spec fn deep_view(&self) -> DocElmView {
        self.view()
    }
}

impl View for Footnote {
    type V = FootnoteView;

    open spec fn view(&self) -> FootnoteView {
        FootnoteView { title: self.title@, body: self.body.deep_view() }
    }
}

impl DeepView for Footnote {
    type V = FootnoteView;

    open spec fn deep_view(&self) -> FootnoteView {
        self.view()
    }
}

// ---------------------------------------------------------------------------
// Constructors and builders
// ---------------------------------------------------------------------------

/// The view of the span produced by `Span::new`.
pub open spec fn empty_span_view() -> SpanView {
    SpanView {
        text: Seq::<char>::empty(),
        styles: Seq::<StyleView>::empty(),
        footnote: None,
        checkbox: None,
    }
}

/// Appends one character to a string.  Relies on `String::push`, which vstd
/// leaves unspecified: the string gains exactly that character at its end.
#[verifier::external_body]
pub(crate) fn string_push_char(s: &mut String, c: char)
    ensures
        final(s)@ == old(s)@.push(c),
{
    s.push(c);
}

impl Header {
    pub fn new() -> (h: Header)
        ensures
            h.level == 1,
            h.text@ == empty_span_view(),
    {
        Header { level: 1, text: Span::new() }
    }

    pub fn push(&mut self, c: char)
        ensures
            final(self).level == old(self).level,
            final(self).text@ == (SpanView { text: old(self).text@.text.push(c), ..old(self).text@ }),
    {
        self.text.push(c);
    }

    pub fn append(&mut self, str: String)
        ensures
            final(self).level == old(self).level,
            final(self).text@ == (SpanView { text: old(self).text@.text + str@, ..old(self).text@ }),
    {
        self.text.append(str);
    }
}

impl Span {
    /// Creates a new `Span` with default values for styles, footnote, and checkbox.
    pub fn new() -> (s: Span)
        ensures
            s@ == empty_span_view(),
    {
        Span { text: String::new(), styles: Vec::new(), footnote: None, checkbox: None }
    }

    pub fn push(&mut self, c: char)
        ensures
            final(self)@ == (SpanView { text: old(self)@.text.push(c), ..old(self)@ }),
    {
        string_push_char(&mut self.text, c);
    }

    pub fn append(&mut self, str: String)
        ensures
            final(self)@ == (SpanView { text: old(self)@.text + str@, ..old(self)@ }),
    {
        self.text.append(str.as_str());
    }
}

impl Paragraph {
    pub fn new() -> (p: Paragraph)
        ensures
            p@ == (ParagraphView { text: Seq::<SpanView>::empty() }),
    {
        Paragraph { text: Vec::new() }
    }
}

impl Citation {
    pub fn new() -> (c: Citation)
        ensures
            c@ == (CitationView {
                text: Seq::<SpanView>::empty(),
                src: None,
                date: None,
            }),
    {
        Citation { text: Vec::new(), src: None, date: None }
    }
}

} // verus!
