//! The markup-text tokenizer: turns human-authored source text into document
//! elements.  `#` starts a header, `>` a citation, anything else a
//! paragraph; within a line, doubled `_` and `*` markers toggle italic and
//! bold styling on the spans they enclose.

use vstd::prelude::*;
use vstd::seq_lib::group_seq_lib_default;

use crate::frac::{string_push_char, Citation, DocElm, Header, Paragraph, Span, Style};

verus! {

broadcast use group_seq_lib_default;

/// The marker characters of the markup grammar.
pub const HEADER_MARK: char = '#';

pub const CITATION_MARK: char = '>';

pub const NEW_LINE: char = '\n';

pub const BOLD_MARKER: char = '*';

pub const ITALIC_MARKER: char = '_';

/// Whether a character counts as whitespace when a header line is trimmed.
/// Named for `char::is_whitespace`, a property of the character alone.
pub uninterp spec fn is_whitespace_char(c: char) -> bool;

/// Relies on `char::is_whitespace`: the Unicode whitespace property.
#[verifier::external_body]
fn char_is_whitespace(c: char) -> (b: bool)
    ensures
        b == is_whitespace_char(c),
{
    c.is_whitespace()
}

/// The characters of a string, in order.
fn str_to_chars(s: &str) -> (v: Vec<char>)
    ensures
        v@ == s@,
{
    let n = s.unicode_len();
    let mut v: Vec<char> = Vec::new();
    let mut i: usize = 0;
    while i < n
        invariant
            i <= n,
            n == s@.len(),
            v@ == s@.take(i as int),
        decreases n - i,
    {
        v.push(s.get_char(i));
        proof {
            assert(s@.take((i + 1) as int) =~= s@.take(i as int).push(s@[i as int]));
        }
        i += 1;
    }
    proof {
        assert(s@.take(n as int) =~= s@);
    }
    v
}

/// A copy of one style value.
fn clone_style(s: &Style) -> (r: Style)
    ensures
        r == *s,
{
    match s {
        Style::Italic => Style::Italic,
        Style::Bold => Style::Bold,
        Style::Code => Style::Code,
        Style::Link { href } => Style::Link { href: href.clone() },
        Style::Strikethrough => Style::Strikethrough,
        Style::Highlight => Style::Highlight,
    }
}

/// A copy of a style list.
fn clone_styles(v: &Vec<Style>) -> (r: Vec<Style>)
    ensures
        r@ == v@,
{
    let mut r: Vec<Style> = Vec::new();
    let mut i: usize = 0;
    while i < v.len()
        invariant
            i <= v@.len(),
            r@ == v@.take(i as int),
        decreases v@.len() - i,
    {
        r.push(clone_style(&v[i]));
        proof {
            assert(v@.take((i + 1) as int) =~= v@.take(i as int).push(v@[i as int]));
        }
        i += 1;
    }
    proof {
        assert(v@.take(v@.len() as int) =~= v@);
    }
    r
}

/// True when the style is the one a doubled marker toggles: italic for `__`,
/// bold for `**`.
pub open spec fn is_toggle(s: Style, italic: bool) -> bool {
    if italic {
        s is Italic
    } else {
        s is Bold
    }
}

pub open spec fn has_toggle(s: Seq<Style>, italic: bool) -> bool {
    exists|i: int| 0 <= i < s.len() && is_toggle(s[i], italic)
}

/// What toggling leaves: with the style present, every occurrence is
/// removed; otherwise it is appended.
pub open spec fn spec_toggle(s: Seq<Style>, italic: bool) -> Seq<Style> {
    if has_toggle(s, italic) {
        s.filter(|x: Style| !is_toggle(x, italic))
    } else {
        s.push(
            if italic {
                Style::Italic
            } else {
                Style::Bold
            },
        )
    }
}

fn matches_toggle(s: &Style, italic: bool) -> (b: bool)
    ensures
        b == is_toggle(*s, italic),
{
    match s {
        Style::Italic => italic,
        Style::Bold => !italic,
        _ => false,
    }
}

fn contains_toggle(styles: &Vec<Style>, italic: bool) -> (b: bool)
    ensures
        b == has_toggle(styles@, italic),
{
    let mut i: usize = 0;
    while i < styles.len()
        invariant
            i <= styles@.len(),
            forall|j: int| 0 <= j < i ==> !is_toggle(#[trigger] styles@[j], italic),
        decreases styles@.len() - i,
    {
        if matches_toggle(&styles[i], italic) {
            return true;
        }
        i += 1;
    }
    false
}

/// Toggles the italic or bold style: removes every occurrence when present,
/// appends it when absent.
fn toggle_style(styles: &mut Vec<Style>, italic: bool)
    ensures
        final(styles)@ == spec_toggle(old(styles)@, italic),
{
    let ghost orig = styles@;
    if contains_toggle(styles, italic) {
        let mut kept: Vec<Style> = Vec::new();
        let mut consumed: usize = 0;
        let total = styles.len();
        proof {
            assert(orig.len() == total as int);
            reveal(Seq::filter);
        }
        while styles.len() > 0
            invariant
                consumed + styles@.len() == orig.len(),
                orig.len() <= usize::MAX,
                styles@ == orig.skip(consumed as int),
                kept@ == orig.take(consumed as int).filter(|x: Style| !is_toggle(x, italic)),
            decreases styles@.len(),
        {
            let s = styles.remove(0);
            let keep_it = !matches_toggle(&s, italic);
            if keep_it {
                kept.push(s);
            }
            proof {
                reveal(Seq::filter);
                assert(styles@ =~= orig.skip((consumed + 1) as int));
                let pre = orig.take(consumed as int);
                let now = orig.take((consumed + 1) as int);
                assert(now =~= pre.push(orig[consumed as int]));
                assert(now.drop_last() =~= pre);
                assert(kept@ == now.filter(|x: Style| !is_toggle(x, italic)));
            }
            consumed = consumed + 1;
        }
        proof {
            assert(orig.take(consumed as int) =~= orig);
        }
        *styles = kept;
    } else {
        styles.push(
            if italic {
                Style::Italic
            } else {
                Style::Bold
            },
        );
    }
}

/// Splits a run of text into styled spans, reading from `start` until a
/// newline (left unconsumed) or the end of the input.  Doubled `_` and `*`
/// markers close the span built so far and toggle italic or bold; single
/// markers are literal text.  Every produced span has nonempty text.
pub fn span_parse(chars: &Vec<char>, start: usize, styles: Option<Vec<Style>>) -> (r: (
    Vec<Span>,
    usize,
))
    requires
        start <= chars@.len(),
    ensures
        start <= r.1 <= chars@.len(),
        r.1 < chars@.len() ==> chars@[r.1 as int] == NEW_LINE,
        forall|i: int| 0 <= i < r.0@.len() ==> (#[trigger] r.0@[i]).text@.len() > 0,
{
    let mut spans: Vec<Span> = Vec::new();
    let mut current_text: String = String::new();
    let mut current_styles: Vec<Style> = match styles {
        Some(v) => v,
        None => Vec::new(),
    };
    let mut pos: usize = start;
    let n = chars.len();
    while pos < n && chars[pos] != NEW_LINE
        invariant
            start <= pos <= n,
            n == chars@.len(),
            forall|i: int| 0 <= i < spans@.len() ==> (#[trigger] spans@[i]).text@.len() > 0,
        decreases n - pos,
    {
        let ch = chars[pos];
        if ch == ITALIC_MARKER {
            pos = pos + 1;
            if pos < n {
                let next = chars[pos];
                if next == ITALIC_MARKER {
                    pos = pos + 1;
                    if !current_text.as_str().is_empty() {
                        spans.push(
                            Span {
                                text: current_text,
                                styles: clone_styles(&current_styles),
                                footnote: None,
                                checkbox: None,
                            },
                        );
                        current_text = String::new();
                    }
                    toggle_style(&mut current_styles, true);
                } else {
                    string_push_char(&mut current_text, ITALIC_MARKER);
                }
            }
        } else if ch == BOLD_MARKER {
            pos = pos + 1;
            if pos < n {
                let next = chars[pos];
                if next == BOLD_MARKER {
                    pos = pos + 1;
                    if !current_text.as_str().is_empty() {
                        spans.push(
                            Span {
                                text: current_text,
                                styles: clone_styles(&current_styles),
                                footnote: None,
                                checkbox: None,
                            },
                        );
                        current_text = String::new();
                    }
                    toggle_style(&mut current_styles, false);
                } else {
                    string_push_char(&mut current_text, BOLD_MARKER);
                }
            }
        } else {
            string_push_char(&mut current_text, ch);
            pos = pos + 1;
        }
    }
    if !current_text.as_str().is_empty() {
        spans.push(
            Span { text: current_text, styles: current_styles, footnote: None, checkbox: None },
        );
    }
    (spans, pos)
}

/// Parses a header: counts the extra `#` marks for the level (the first one
/// was already consumed by the caller), then takes the rest of the line,
/// trimmed of surrounding whitespace, as the header text.
fn header_parse(chars: &Vec<char>, start: usize) -> (r: (DocElm, usize))
    requires
        start <= chars@.len(),
    ensures
        r.0 is Header,
        r.0 matches DocElm::Header(h) && h.level >= 1,
        start <= r.1 <= chars@.len(),
{
    let n = chars.len();
    let mut level: u8 = 1;
    let mut pos: usize = start;
    while pos < n && chars[pos] == HEADER_MARK
        invariant
            start <= pos <= n,
            n == chars@.len(),
            level >= 1,
        decreases n - pos,
    {
        // The heading depth saturates rather than wrap its byte.
        if level < 255 {
            level = level + 1;
        }
        pos = pos + 1;
    }
    let line_start = pos;
    while pos < n && chars[pos] != NEW_LINE
        invariant
            line_start <= pos <= n,
            n == chars@.len(),
        decreases n - pos,
    {
        pos = pos + 1;
    }
    let line_end = pos;
    if pos < n {
        // Consume the newline, as the original line scan does.
        pos = pos + 1;
    }
    let mut lo = line_start;
    while lo < line_end && char_is_whitespace(chars[lo])
        invariant
            line_start <= lo <= line_end,
            line_end <= chars@.len(),
        decreases line_end - lo,
    {
        lo = lo + 1;
    }
    let mut hi = line_end;
    while hi > lo && char_is_whitespace(chars[hi - 1])
        invariant
            lo <= hi <= line_end,
            line_end <= chars@.len(),
        decreases hi - lo,
    {
        hi = hi - 1;
    }
    let mut text = String::new();
    let mut i = lo;
    while i < hi
        invariant
            lo <= i <= hi,
            hi <= chars@.len(),
        decreases hi - i,
    {
        string_push_char(&mut text, chars[i]);
        i = i + 1;
    }
    let header = Header {
        level,
        text: Span { text, styles: Vec::new(), footnote: None, checkbox: None },
    };
    (DocElm::Header(header), pos)
}

/// Parses a paragraph: the styled spans of the rest of the line.
fn paragraph_parse(chars: &Vec<char>, start: usize) -> (r: (DocElm, usize))
    requires
        start <= chars@.len(),
    ensures
        r.0 is Paragraph,
        start <= r.1 <= chars@.len(),
{
    let (spans, pos) = span_parse(chars, start, None);
    (DocElm::Paragraph(Paragraph { text: spans }), pos)
}

/// Parses a citation: the rest of the line as spans, starting italic.
fn citation_parse(chars: &Vec<char>, start: usize) -> (r: (DocElm, usize))
    requires
        start <= chars@.len(),
    ensures
        r.0 is Citation,
        start <= r.1 <= chars@.len(),
{
    let styles = vec![Style::Italic];
    let (spans, pos) = span_parse(chars, start, Some(styles));
    (
        DocElm::Citation(Citation { text: spans, src: None, date: None }),
        pos,
    )
}

/// True of the element kinds the tokenizer produces.
pub open spec fn tokenizer_elm(e: DocElm) -> bool {
    e is Header || e is Citation || e is Paragraph
}

/// Dispatches on the first character of each chunk: `#` to a header, `>` to
/// a citation, anything else to a paragraph of the rest of the line.
fn doc_elemizer(input: &str) -> (r: Vec<DocElm>)
    ensures
        forall|i: int| 0 <= i < r@.len() ==> tokenizer_elm(#[trigger] r@[i]),
{
    let chars = str_to_chars(input);
    let n = chars.len();
    let mut doc_elements: Vec<DocElm> = Vec::new();
    let mut pos: usize = 0;
    while pos < n
        invariant
            pos <= n,
            n == chars@.len(),
            forall|i: int|
                0 <= i < doc_elements@.len() ==> tokenizer_elm(#[trigger] doc_elements@[i]),
        decreases n - pos,
    {
        let ch = chars[pos];
        pos = pos + 1;
        if ch == HEADER_MARK {
            let (elm, np) = header_parse(&chars, pos);
            doc_elements.push(elm);
            pos = np;
        } else if ch == CITATION_MARK {
            let (elm, np) = citation_parse(&chars, pos);
            doc_elements.push(elm);
            pos = np;
        } else {
            let (elm, np) = paragraph_parse(&chars, pos);
            doc_elements.push(elm);
            pos = np;
        }
    }
    doc_elements
}

/// Tokenizes one chunk of markup text into document elements.  Always
/// succeeds; every element produced is a header, citation or paragraph.
pub fn parse_chunk(chunk: &str) -> (r: Result<Vec<DocElm>, std::string::ParseError>)
    ensures
        r matches Ok(elements) && forall|i: int|
            0 <= i < elements@.len() ==> tokenizer_elm(#[trigger] elements@[i]),
{
    let elements = doc_elemizer(chunk);
    Ok(elements)
}

} // verus!
