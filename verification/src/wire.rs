//! The container wire format, at the specification level: byte-exact
//! encodings of spans, styles, elements and footnotes, and the matching
//! parsers.  The exec codec in `format` is verified against these functions,
//! and the round-trip laws in `laws` are proved about them.
//!
//! Container layout (all integers little-endian):
//! magic `F R A C`, 4-byte checksum, 1-byte version, 4-byte body offset,
//! 4-byte footnotes offset, 20 reserved zero bytes, body, footnotes.

use vstd::prelude::*;
use vstd::utf8::{decode_utf8, encode_utf8, valid_utf8};

use crate::checksum::crc32_of;
use crate::digits::dec_digits;
use crate::errors::FracFormatErrorView;
use crate::frac::{DocElmView, FootnoteView, HeaderView, ParagraphView, SpanView, StyleView};

verus! {

// ---------------------------------------------------------------------------
// Layout constants
// ---------------------------------------------------------------------------

/// Magic bytes `F`, `R`, `A`, `C`.
pub const MAGIC_0: u8 = 70;

pub const MAGIC_1: u8 = 82;

pub const MAGIC_2: u8 = 65;

pub const MAGIC_3: u8 = 67;

pub const FORMAT_VERSION: u8 = 1;

pub const HEADER_SIZE: usize = 37;

pub const HEADER_RESERVED_BYTES: usize = 20;

/// Element tags.  Only `Header` and `Paragraph` are written today; every
/// other variant is rejected at encode time and unknown tags are rejected at
/// decode time.
pub const TAG_HEADER: u8 = 1;

pub const TAG_PARAGRAPH: u8 = 2;

/// Style tags.  These values are format-stable.
pub const STYLE_TAG_ITALIC: u8 = 1;

pub const STYLE_TAG_BOLD: u8 = 2;

pub const STYLE_TAG_CODE: u8 = 3;

pub const STYLE_TAG_LINK: u8 = 4;

pub const STYLE_TAG_STRIKETHROUGH: u8 = 5;

pub const STYLE_TAG_HIGHLIGHT: u8 = 6;

// ---------------------------------------------------------------------------
// Encodings
// ---------------------------------------------------------------------------

/// Little-endian encoding of a 32-bit value.
pub open spec fn enc_u32_le(v: u32) -> Seq<u8> {
    seq![
        (v & 0xff) as u8,
        ((v >> 8) & 0xff) as u8,
        ((v >> 16) & 0xff) as u8,
        ((v >> 24) & 0xff) as u8,
    ]
}

/// Little-endian encoding of a 64-bit value.
pub open spec fn enc_u64_le(v: u64) -> Seq<u8> {
    seq![
        (v & 0xff) as u8,
        ((v >> 8) & 0xff) as u8,
        ((v >> 16) & 0xff) as u8,
        ((v >> 24) & 0xff) as u8,
        ((v >> 32) & 0xff) as u8,
        ((v >> 40) & 0xff) as u8,
        ((v >> 48) & 0xff) as u8,
        ((v >> 56) & 0xff) as u8,
    ]
}

/// A length-prefixed UTF-8 string: 8-byte byte length, then the bytes.
pub open spec fn enc_str(s: Seq<char>) -> Seq<u8> {
    enc_u64_le(encode_utf8(s).len() as u64) + encode_utf8(s)
}

/// One style: a tag byte; `Link` additionally carries its href string.
pub open spec fn enc_style(st: StyleView) -> Seq<u8> {
    match st {
        StyleView::Italic => seq![STYLE_TAG_ITALIC],
        StyleView::Bold => seq![STYLE_TAG_BOLD],
        StyleView::Code => seq![STYLE_TAG_CODE],
        StyleView::Link { href } => seq![STYLE_TAG_LINK] + enc_str(href),
        StyleView::Strikethrough => seq![STYLE_TAG_STRIKETHROUGH],
        StyleView::Highlight => seq![STYLE_TAG_HIGHLIGHT],
    }
}

/// The styles of a span, in order, without a count prefix.
pub open spec fn enc_styles(ss: Seq<StyleView>) -> Seq<u8>
    decreases ss.len(),
{
    if ss.len() == 0 {
        Seq::<u8>::empty()
    } else {
        enc_style(ss[0]) + enc_styles(ss.drop_first())
    }
}

/// An optional string: presence byte, then the string when present.
pub open spec fn enc_opt_str(o: Option<Seq<char>>) -> Seq<u8> {
    match o {
        None => seq![0u8],
        Some(s) => seq![1u8] + enc_str(s),
    }
}

/// An optional boolean: presence byte, then 0/1 when present.
pub open spec fn enc_opt_bool(o: Option<bool>) -> Seq<u8> {
    match o {
        None => seq![0u8],
        Some(b) => seq![1u8, if b { 1u8 } else { 0u8 }],
    }
}

/// One span: text, count-prefixed style list, optional footnote reference,
/// optional checkbox state.
pub open spec fn enc_span(sp: SpanView) -> Seq<u8> {
    enc_str(sp.text) + enc_u64_le(sp.styles.len() as u64) + enc_styles(sp.styles) + enc_opt_str(
        sp.footnote,
    ) + enc_opt_bool(sp.checkbox)
}

/// A sequence of spans, in order, without a count prefix.
pub open spec fn enc_spans(ss: Seq<SpanView>) -> Seq<u8>
    decreases ss.len(),
{
    if ss.len() == 0 {
        Seq::<u8>::empty()
    } else {
        enc_span(ss[0]) + enc_spans(ss.drop_first())
    }
}

/// A count-prefixed sequence of spans.
pub open spec fn enc_span_vec(ss: Seq<SpanView>) -> Seq<u8> {
    enc_u64_le(ss.len() as u64) + enc_spans(ss)
}

/// True for the element variants the format can encode today.
pub open spec fn elm_supported(e: DocElmView) -> bool {
    e is Header || e is Paragraph
}

/// One element as a tagged variant.  Unsupported variants have no encoding;
/// the encoder rejects them before writing anything.
pub open spec fn enc_elm(e: DocElmView) -> Seq<u8> {
    match e {
        DocElmView::Header(h) => seq![TAG_HEADER, h.level] + enc_span(h.text),
        DocElmView::Paragraph(p) => seq![TAG_PARAGRAPH] + enc_span_vec(p.text),
        _ => Seq::<u8>::empty(),
    }
}

/// A sequence of elements, in order, without a count prefix.
pub open spec fn enc_elms(es: Seq<DocElmView>) -> Seq<u8>
    decreases es.len(),
{
    if es.len() == 0 {
        Seq::<u8>::empty()
    } else {
        enc_elm(es[0]) + enc_elms(es.drop_first())
    }
}

/// One footnote: title, then a count-prefixed sequence of body elements.
pub open spec fn enc_footnote(f: FootnoteView) -> Seq<u8> {
    enc_str(f.title) + enc_u64_le(f.body.len() as u64) + enc_elms(f.body)
}

/// A sequence of footnote records, in order, without a count prefix.
pub open spec fn enc_footnote_list(fs: Seq<FootnoteView>) -> Seq<u8>
    decreases fs.len(),
{
    if fs.len() == 0 {
        Seq::<u8>::empty()
    } else {
        enc_footnote(fs[0]) + enc_footnote_list(fs.drop_first())
    }
}

/// The footnotes section: 8-byte count, then the records.  An absent
/// collection writes a count of zero, the same bytes as an empty one.
pub open spec fn enc_footnotes(fo: Option<Seq<FootnoteView>>) -> Seq<u8> {
    match fo {
        None => enc_u64_le(0),
        Some(fs) => enc_u64_le(fs.len() as u64) + enc_footnote_list(fs),
    }
}

/// The magic bytes.
pub open spec fn spec_magic() -> Seq<u8> {
    seq![MAGIC_0, MAGIC_1, MAGIC_2, MAGIC_3]
}

/// The reserved header block: zero-filled on write, ignored on read.
pub open spec fn spec_reserved() -> Seq<u8> {
    Seq::<u8>::new(HEADER_RESERVED_BYTES as nat, |i: int| 0u8)
}

/// The complete container for a document whose elements are all supported
/// and whose body offset fits the header.
pub open spec fn container_bytes(body: Seq<DocElmView>, fo: Option<Seq<FootnoteView>>) -> Seq<
    u8,
> {
    let bb = enc_elms(body);
    let fb = enc_footnotes(fo);
    spec_magic() + enc_u32_le(crc32_of(bb + fb)) + seq![FORMAT_VERSION] + enc_u32_le(
        HEADER_SIZE as u32,
    ) + enc_u32_le((HEADER_SIZE + bb.len()) as u32) + spec_reserved() + bb + fb
}

// ---------------------------------------------------------------------------
// Size bounds: what must fit the fixed-width length and offset fields
// ---------------------------------------------------------------------------

/// True when a count or byte length fits the 8-byte length prefix.
pub open spec fn fits_u64(n: nat) -> bool {
    n < 0x1_0000_0000_0000_0000
}

pub open spec fn str_fits(s: Seq<char>) -> bool {
    fits_u64(encode_utf8(s).len())
}

pub open spec fn style_fits(st: StyleView) -> bool {
    match st {
        StyleView::Link { href } => str_fits(href),
        _ => true,
    }
}

pub open spec fn span_fits(sp: SpanView) -> bool {
    &&& str_fits(sp.text)
    &&& fits_u64(sp.styles.len())
    &&& forall|i: int| 0 <= i < sp.styles.len() ==> style_fits(#[trigger] sp.styles[i])
    &&& (sp.footnote matches Some(s) ==> str_fits(s))
}

pub open spec fn elm_fits(e: DocElmView) -> bool {
    match e {
        DocElmView::Header(h) => span_fits(h.text),
        DocElmView::Paragraph(p) => fits_u64(p.text.len()) && forall|i: int|
            0 <= i < p.text.len() ==> span_fits(#[trigger] p.text[i]),
        _ => true,
    }
}

pub open spec fn footnote_fits(f: FootnoteView) -> bool {
    &&& str_fits(f.title)
    &&& fits_u64(f.body.len())
    &&& forall|i: int| 0 <= i < f.body.len() ==> elm_fits(#[trigger] f.body[i])
}

/// All counts and byte lengths in the document fit their length prefixes.
pub open spec fn doc_fits(body: Seq<DocElmView>, fo: Option<Seq<FootnoteView>>) -> bool {
    &&& forall|i: int| 0 <= i < body.len() ==> elm_fits(#[trigger] body[i])
    &&& (fo matches Some(fs) ==> fits_u64(fs.len()) && forall|i: int|
        0 <= i < fs.len() ==> footnote_fits(#[trigger] fs[i]))
}

/// The footnotes offset, `HEADER_SIZE` plus the body length, fits its 4-byte
/// header field.
pub open spec fn container_fits(body: Seq<DocElmView>) -> bool {
    HEADER_SIZE + enc_elms(body).len() <= 0xffff_ffff
}

// ---------------------------------------------------------------------------
// Supported-element bookkeeping for the encoder's error
// ---------------------------------------------------------------------------

pub open spec fn elms_supported(es: Seq<DocElmView>) -> bool {
    forall|i: int| 0 <= i < es.len() ==> elm_supported(#[trigger] es[i])
}

/// Every element of the document, footnote bodies included, is supported.
pub open spec fn doc_supported(body: Seq<DocElmView>, fo: Option<Seq<FootnoteView>>) -> bool {
    &&& elms_supported(body)
    &&& (fo matches Some(fs) ==> forall|i: int|
        0 <= i < fs.len() ==> elms_supported(#[trigger] fs[i].body))
}

/// The variant name of an element, for the unsupported-feature error.
pub open spec fn elm_variant_name(e: DocElmView) -> Seq<char> {
    match e {
        DocElmView::Header(_) => "Header"@,
        DocElmView::Paragraph(_) => "Paragraph"@,
        DocElmView::Citation(_) => "Citation"@,
        DocElmView::List(_) => "List"@,
        DocElmView::Image(_) => "Image"@,
        DocElmView::CodeBlock(_) => "CodeBlock"@,
        DocElmView::Table(_) => "Table"@,
        DocElmView::Break => "Break"@,
    }
}

/// The message of the error that rejects an unsupported element.
pub open spec fn unsupported_message(e: DocElmView) -> Seq<char> {
    elm_variant_name(e) + " elements are not yet supported"@
}

/// The first unsupported element of a sequence, in order.
pub open spec fn find_unsupported_elm(es: Seq<DocElmView>) -> Option<DocElmView>
    decreases es.len(),
{
    if es.len() == 0 {
        None
    } else if !elm_supported(es[0]) {
        Some(es[0])
    } else {
        find_unsupported_elm(es.drop_first())
    }
}

/// The first unsupported element across the footnote bodies, in order.
pub open spec fn find_unsupported_footnote(fs: Seq<FootnoteView>) -> Option<DocElmView>
    decreases fs.len(),
{
    if fs.len() == 0 {
        None
    } else {
        match find_unsupported_elm(fs[0].body) {
            Some(e) => Some(e),
            None => find_unsupported_footnote(fs.drop_first()),
        }
    }
}

/// The first unsupported element the encoder meets: body first, then the
/// footnote bodies.
pub open spec fn find_unsupported(body: Seq<DocElmView>, fo: Option<Seq<FootnoteView>>) -> Option<
    DocElmView,
> {
    match find_unsupported_elm(body) {
        Some(e) => Some(e),
        None => match fo {
            None => None,
            Some(fs) => find_unsupported_footnote(fs),
        },
    }
}

/// What encoding a document produces: the container bytes, or the error that
/// rejects it.  Unsupported elements are reported first; a body too large
/// for the 4-byte offset field is an I/O error.
pub open spec fn spec_serialize(body: Seq<DocElmView>, fo: Option<Seq<FootnoteView>>) -> Result<
    Seq<u8>,
    FracFormatErrorView,
> {
    match find_unsupported(body, fo) {
        Some(e) => Err(FracFormatErrorView::UnsupportedFeature(unsupported_message(e))),
        None => if !container_fits(body) {
            Err(FracFormatErrorView::Io("document body too large"@))
        } else {
            Ok(container_bytes(body, fo))
        },
    }
}

// ---------------------------------------------------------------------------
// Parsers
// ---------------------------------------------------------------------------

/// Why a parse failed: the buffer ran short, or the bytes are invalid with
/// the given message.
pub enum WireFault {
    Short,
    Invalid(Seq<char>),
}

/// The codec error a parse fault surfaces as.
pub open spec fn fault_error(f: WireFault) -> FracFormatErrorView {
    match f {
        WireFault::Short => FracFormatErrorView::Io("unexpected end of input"@),
        WireFault::Invalid(m) => FracFormatErrorView::InvalidData(m),
    }
}

pub open spec fn parse_u8_at(data: Seq<u8>, pos: int) -> Result<(u8, int), WireFault> {
    if 0 <= pos && pos + 1 <= data.len() {
        Ok((data[pos], pos + 1))
    } else {
        Err(WireFault::Short)
    }
}

/// The value of four little-endian bytes.
pub open spec fn le_u32(b0: u8, b1: u8, b2: u8, b3: u8) -> u32 {
    (b0 as u32) | ((b1 as u32) << 8) | ((b2 as u32) << 16) | ((b3 as u32) << 24)
}

pub open spec fn parse_u32_at(data: Seq<u8>, pos: int) -> Result<(u32, int), WireFault> {
    if 0 <= pos && pos + 4 <= data.len() {
        Ok((le_u32(data[pos], data[pos + 1], data[pos + 2], data[pos + 3]), pos + 4))
    } else {
        Err(WireFault::Short)
    }
}

/// The value of eight little-endian bytes.
pub open spec fn le_u64(b0: u8, b1: u8, b2: u8, b3: u8, b4: u8, b5: u8, b6: u8, b7: u8) -> u64 {
    (b0 as u64) | ((b1 as u64) << 8) | ((b2 as u64) << 16) | ((b3 as u64) << 24) | ((b4
        as u64) << 32) | ((b5 as u64) << 40) | ((b6 as u64) << 48) | ((b7 as u64) << 56)
}

pub open spec fn parse_u64_at(data: Seq<u8>, pos: int) -> Result<(u64, int), WireFault> {
    if 0 <= pos && pos + 8 <= data.len() {
        Ok(
            (
                le_u64(
                    data[pos],
                    data[pos + 1],
                    data[pos + 2],
                    data[pos + 3],
                    data[pos + 4],
                    data[pos + 5],
                    data[pos + 6],
                    data[pos + 7],
                ),
                pos + 8,
            ),
        )
    } else {
        Err(WireFault::Short)
    }
}

/// A length-prefixed string: the byte length, then that many bytes, which
/// must be valid UTF-8.
pub open spec fn parse_str_at(data: Seq<u8>, pos: int) -> Result<(Seq<char>, int), WireFault> {
    match parse_u64_at(data, pos) {
        Err(f) => Err(f),
        Ok((n, p)) => if p + n as int <= data.len() {
            let bytes = data.subrange(p, p + n as int);
            if valid_utf8(bytes) {
                Ok((decode_utf8(bytes), p + n as int))
            } else {
                Err(WireFault::Invalid("invalid utf-8 in string"@))
            }
        } else {
            Err(WireFault::Short)
        },
    }
}

pub open spec fn parse_style_at(data: Seq<u8>, pos: int) -> Result<(StyleView, int), WireFault> {
    match parse_u8_at(data, pos) {
        Err(f) => Err(f),
        Ok((t, p)) => if t == STYLE_TAG_ITALIC {
            Ok((StyleView::Italic, p))
        } else if t == STYLE_TAG_BOLD {
            Ok((StyleView::Bold, p))
        } else if t == STYLE_TAG_CODE {
            Ok((StyleView::Code, p))
        } else if t == STYLE_TAG_LINK {
            match parse_str_at(data, p) {
                Err(f) => Err(f),
                Ok((href, p2)) => Ok((StyleView::Link { href }, p2)),
            }
        } else if t == STYLE_TAG_STRIKETHROUGH {
            Ok((StyleView::Strikethrough, p))
        } else if t == STYLE_TAG_HIGHLIGHT {
            Ok((StyleView::Highlight, p))
        } else {
            Err(WireFault::Invalid("Unknown style tag "@ + dec_digits(t as nat)))
        },
    }
}

pub open spec fn parse_n_styles(data: Seq<u8>, pos: int, n: u64) -> Result<
    (Seq<StyleView>, int),
    WireFault,
>
    decreases n,
{
    if n == 0 {
        Ok((Seq::<StyleView>::empty(), pos))
    } else {
        match parse_style_at(data, pos) {
            Err(f) => Err(f),
            Ok((st, p)) => match parse_n_styles(data, p, (n - 1) as u64) {
                Err(f) => Err(f),
                Ok((rest, fin)) => Ok((seq![st] + rest, fin)),
            },
        }
    }
}

/// An optional string: any presence byte other than 1 means absent.
pub open spec fn parse_opt_str_at(data: Seq<u8>, pos: int) -> Result<
    (Option<Seq<char>>, int),
    WireFault,
> {
    match parse_u8_at(data, pos) {
        Err(f) => Err(f),
        Ok((b, p)) => if b == 1 {
            match parse_str_at(data, p) {
                Err(f) => Err(f),
                Ok((s, p2)) => Ok((Some(s), p2)),
            }
        } else {
            Ok((None, p))
        },
    }
}

/// An optional boolean: any presence byte other than 1 means absent; a
/// present value is true exactly when its byte is 1.
pub open spec fn parse_opt_bool_at(data: Seq<u8>, pos: int) -> Result<
    (Option<bool>, int),
    WireFault,
> {
    match parse_u8_at(data, pos) {
        Err(f) => Err(f),
        Ok((b, p)) => if b == 1 {
            match parse_u8_at(data, p) {
                Err(f) => Err(f),
                Ok((v, p2)) => Ok((Some(v == 1), p2)),
            }
        } else {
            Ok((None, p))
        },
    }
}

pub open spec fn parse_span_at(data: Seq<u8>, pos: int) -> Result<(SpanView, int), WireFault> {
    match parse_str_at(data, pos) {
        Err(f) => Err(f),
        Ok((text, p1)) => match parse_u64_at(data, p1) {
            Err(f) => Err(f),
            Ok((nstyles, p2)) => match parse_n_styles(data, p2, nstyles) {
                Err(f) => Err(f),
                Ok((styles, p3)) => match parse_opt_str_at(data, p3) {
                    Err(f) => Err(f),
                    Ok((footnote, p4)) => match parse_opt_bool_at(data, p4) {
                        Err(f) => Err(f),
                        Ok((checkbox, p5)) => Ok(
                            (SpanView { text, styles, footnote, checkbox }, p5),
                        ),
                    },
                },
            },
        },
    }
}

pub open spec fn parse_n_spans(data: Seq<u8>, pos: int, n: u64) -> Result<
    (Seq<SpanView>, int),
    WireFault,
>
    decreases n,
{
    if n == 0 {
        Ok((Seq::<SpanView>::empty(), pos))
    } else {
        match parse_span_at(data, pos) {
            Err(f) => Err(f),
            Ok((sp, p)) => match parse_n_spans(data, p, (n - 1) as u64) {
                Err(f) => Err(f),
                Ok((rest, fin)) => Ok((seq![sp] + rest, fin)),
            },
        }
    }
}

/// A count-prefixed sequence of spans: the count, then that many spans.
pub open spec fn parse_span_vec_at(data: Seq<u8>, pos: int) -> Result<
    (Seq<SpanView>, int),
    WireFault,
> {
    match parse_u64_at(data, pos) {
        Err(f) => Err(f),
        Ok((n, p)) => parse_n_spans(data, p, n),
    }
}

pub open spec fn parse_elm_at(data: Seq<u8>, pos: int) -> Result<(DocElmView, int), WireFault> {
    match parse_u8_at(data, pos) {
        Err(f) => Err(f),
        Ok((t, p)) => if t == TAG_HEADER {
            match parse_u8_at(data, p) {
                Err(f) => Err(f),
                Ok((level, p1)) => match parse_span_at(data, p1) {
                    Err(f) => Err(f),
                    Ok((sp, p2)) => Ok((DocElmView::Header(HeaderView { level, text: sp }), p2)),
                },
            }
        } else if t == TAG_PARAGRAPH {
            match parse_span_vec_at(data, p) {
                Err(f) => Err(f),
                Ok((ss, p2)) => Ok((DocElmView::Paragraph(ParagraphView { text: ss }), p2)),
            }
        } else {
            Err(WireFault::Invalid("Unknown DocElm tag: "@ + dec_digits(t as nat)))
        },
    }
}

/// Elements read one after another until the cursor reaches `end`.  An
/// element that starts before `end` may consume bytes beyond it; the next
/// read then starts past `end` and the loop stops.
pub open spec fn parse_body(data: Seq<u8>, pos: int, end: int) -> Result<
    (Seq<DocElmView>, int),
    WireFault,
>
    decreases end - pos,
{
    if pos >= end {
        Ok((Seq::<DocElmView>::empty(), pos))
    } else {
        match parse_elm_at(data, pos) {
            Err(f) => Err(f),
            Ok((e, p)) => if p >= end {
                Ok((seq![e], p))
            } else if p > pos {
                match parse_body(data, p, end) {
                    Err(f) => Err(f),
                    Ok((rest, fin)) => Ok((seq![e] + rest, fin)),
                }
            } else {
                // Unreachable: an element consumes at least its tag byte.
                Err(WireFault::Short)
            },
        }
    }
}

pub open spec fn parse_n_elms(data: Seq<u8>, pos: int, n: u64) -> Result<
    (Seq<DocElmView>, int),
    WireFault,
>
    decreases n,
{
    if n == 0 {
        Ok((Seq::<DocElmView>::empty(), pos))
    } else {
        match parse_elm_at(data, pos) {
            Err(f) => Err(f),
            Ok((e, p)) => match parse_n_elms(data, p, (n - 1) as u64) {
                Err(f) => Err(f),
                Ok((rest, fin)) => Ok((seq![e] + rest, fin)),
            },
        }
    }
}

pub open spec fn parse_footnote_at(data: Seq<u8>, pos: int) -> Result<
    (FootnoteView, int),
    WireFault,
> {
    match parse_str_at(data, pos) {
        Err(f) => Err(f),
        Ok((title, p1)) => match parse_u64_at(data, p1) {
            Err(f) => Err(f),
            Ok((n, p2)) => match parse_n_elms(data, p2, n) {
                Err(f) => Err(f),
                Ok((body, p3)) => Ok((FootnoteView { title, body }, p3)),
            },
        },
    }
}

pub open spec fn parse_n_footnotes(data: Seq<u8>, pos: int, n: u64) -> Result<
    (Seq<FootnoteView>, int),
    WireFault,
>
    decreases n,
{
    if n == 0 {
        Ok((Seq::<FootnoteView>::empty(), pos))
    } else {
        match parse_footnote_at(data, pos) {
            Err(f) => Err(f),
            Ok((fnote, p)) => match parse_n_footnotes(data, p, (n - 1) as u64) {
                Err(f) => Err(f),
                Ok((rest, fin)) => Ok((seq![fnote] + rest, fin)),
            },
        }
    }
}

// ---------------------------------------------------------------------------
// Continuations: what a partially-run parse loop still owes.  The exec
// decoder's loop invariants state that the elements read so far, followed by
// whatever the rest of the parse yields, equal the whole parse.
// ---------------------------------------------------------------------------

pub open spec fn cont_styles(data: Seq<u8>, pos: int, n: u64, acc: Seq<StyleView>) -> Result<
    (Seq<StyleView>, int),
    WireFault,
> {
    match parse_n_styles(data, pos, n) {
        Err(f) => Err(f),
        Ok((rest, fin)) => Ok((acc + rest, fin)),
    }
}

pub open spec fn cont_spans(data: Seq<u8>, pos: int, n: u64, acc: Seq<SpanView>) -> Result<
    (Seq<SpanView>, int),
    WireFault,
> {
    match parse_n_spans(data, pos, n) {
        Err(f) => Err(f),
        Ok((rest, fin)) => Ok((acc + rest, fin)),
    }
}

pub open spec fn cont_elms(data: Seq<u8>, pos: int, n: u64, acc: Seq<DocElmView>) -> Result<
    (Seq<DocElmView>, int),
    WireFault,
> {
    match parse_n_elms(data, pos, n) {
        Err(f) => Err(f),
        Ok((rest, fin)) => Ok((acc + rest, fin)),
    }
}

pub open spec fn cont_footnotes(data: Seq<u8>, pos: int, n: u64, acc: Seq<FootnoteView>) -> Result<
    (Seq<FootnoteView>, int),
    WireFault,
> {
    match parse_n_footnotes(data, pos, n) {
        Err(f) => Err(f),
        Ok((rest, fin)) => Ok((acc + rest, fin)),
    }
}

pub open spec fn cont_body(data: Seq<u8>, pos: int, end: int, acc: Seq<DocElmView>) -> Result<
    (Seq<DocElmView>, int),
    WireFault,
> {
    match parse_body(data, pos, end) {
        Err(f) => Err(f),
        Ok((rest, fin)) => Ok((acc + rest, fin)),
    }
}

// ---------------------------------------------------------------------------
// The whole container
// ---------------------------------------------------------------------------

/// What decoding yields on success: the document content, and the verified
/// checksum.
pub struct DecodedView {
    pub body: Seq<DocElmView>,
    pub footnotes: Option<Seq<FootnoteView>>,
    pub checksum: u32,
}

/// What decoding a buffer produces: header validation first, then checksum
/// verification over the regions the stored offsets delimit, then the
/// structured parse of body and footnotes.  A stored footnote count of zero
/// yields an absent footnotes collection.
pub open spec fn spec_deserialize(data: Seq<u8>) -> Result<DecodedView, FracFormatErrorView> {
    if data.len() < 4 {
        Err(FracFormatErrorView::Io("unexpected end of input"@))
    } else if !(data[0] == MAGIC_0 && data[1] == MAGIC_1 && data[2] == MAGIC_2 && data[3]
        == MAGIC_3) {
        Err(FracFormatErrorView::InvalidHeader("Invalid magic bytes"@))
    } else {
        match parse_u32_at(data, 4) {
            Err(f) => Err(fault_error(f)),
            Ok((stored, _)) => match parse_u8_at(data, 8) {
                Err(f) => Err(fault_error(f)),
                Ok((version, _)) => if version != FORMAT_VERSION {
                    Err(
                        FracFormatErrorView::InvalidHeader(
                            "Unsupported version: "@ + dec_digits(version as nat),
                        ),
                    )
                } else {
                    match parse_u32_at(data, 9) {
                        Err(f) => Err(fault_error(f)),
                        Ok((body_offset, _)) => match parse_u32_at(data, 13) {
                            Err(f) => Err(fault_error(f)),
                            Ok((foot_offset, _)) => {
                                let bo = body_offset as int;
                                let fo = foot_offset as int;
                                if !(bo <= fo && fo <= data.len()) {
                                    Err(
                                        FracFormatErrorView::InvalidHeader(
                                            "invalid container offsets"@,
                                        ),
                                    )
                                } else {
                                    let crc = crc32_of(
                                        data.subrange(bo, fo) + data.subrange(
                                            fo,
                                            data.len() as int,
                                        ),
                                    );
                                    if stored != crc {
                                        Err(FracFormatErrorView::InvalidData("Checksum mismatch"@))
                                    } else {
                                        match parse_body(data, bo, fo) {
                                            Err(f) => Err(fault_error(f)),
                                            Ok((body, _)) => match parse_u64_at(data, fo) {
                                                Err(f) => Err(fault_error(f)),
                                                Ok((nfoot, pf)) => match parse_n_footnotes(
                                                    data,
                                                    pf,
                                                    nfoot,
                                                ) {
                                                    Err(f) => Err(fault_error(f)),
                                                    Ok((foots, _)) => Ok(
                                                        DecodedView {
                                                            body,
                                                            footnotes: if nfoot == 0 {
                                                                None
                                                            } else {
                                                                Some(foots)
                                                            },
                                                            checksum: crc,
                                                        },
                                                    ),
                                                },
                                            },
                                        }
                                    }
                                }
                            },
                        },
                    }
                },
            },
        }
    }
}

// ---------------------------------------------------------------------------
// Structural lemmas about the encodings
// ---------------------------------------------------------------------------

/// Appending a style extends its list's encoding at the end.
pub proof fn lemma_enc_styles_push(ss: Seq<StyleView>, st: StyleView)
    ensures
        enc_styles(ss.push(st)) == enc_styles(ss) + enc_style(st),
    decreases ss.len(),
{
    reveal_with_fuel(enc_styles, 3);
    if ss.len() == 0 {
        assert(ss.push(st).drop_first() =~= Seq::<StyleView>::empty());
        assert(enc_styles(ss.push(st)) =~= enc_styles(ss) + enc_style(st));
    } else {
        assert(ss.push(st).drop_first() =~= ss.drop_first().push(st));
        lemma_enc_styles_push(ss.drop_first(), st);
        assert(enc_styles(ss.push(st)) =~= enc_styles(ss) + enc_style(st));
    }
}

/// Appending a span extends its list's encoding at the end.
pub proof fn lemma_enc_spans_push(ss: Seq<SpanView>, sp: SpanView)
    ensures
        enc_spans(ss.push(sp)) == enc_spans(ss) + enc_span(sp),
    decreases ss.len(),
{
    reveal_with_fuel(enc_spans, 3);
    if ss.len() == 0 {
        assert(ss.push(sp).drop_first() =~= Seq::<SpanView>::empty());
        assert(enc_spans(ss.push(sp)) =~= enc_spans(ss) + enc_span(sp));
    } else {
        assert(ss.push(sp).drop_first() =~= ss.drop_first().push(sp));
        lemma_enc_spans_push(ss.drop_first(), sp);
        assert(enc_spans(ss.push(sp)) =~= enc_spans(ss) + enc_span(sp));
    }
}

/// Appending an element extends its list's encoding at the end.
pub proof fn lemma_enc_elms_push(es: Seq<DocElmView>, e: DocElmView)
    ensures
        enc_elms(es.push(e)) == enc_elms(es) + enc_elm(e),
    decreases es.len(),
{
    reveal_with_fuel(enc_elms, 3);
    if es.len() == 0 {
        assert(es.push(e).drop_first() =~= Seq::<DocElmView>::empty());
        assert(es.push(e)[0] == e);
        assert(enc_elms(es) =~= Seq::<u8>::empty());
        assert(enc_elms(es.push(e)) =~= enc_elms(es) + enc_elm(e));
    } else {
        assert(es.push(e).drop_first() =~= es.drop_first().push(e));
        assert(es.push(e)[0] == es[0]);
        lemma_enc_elms_push(es.drop_first(), e);
        assert(enc_elms(es.push(e)) =~= enc_elms(es) + enc_elm(e));
    }
}

/// Appending a footnote extends the record list's encoding at the end.
pub proof fn lemma_enc_footnote_list_push(fs: Seq<FootnoteView>, f: FootnoteView)
    ensures
        enc_footnote_list(fs.push(f)) == enc_footnote_list(fs) + enc_footnote(f),
    decreases fs.len(),
{
    reveal_with_fuel(enc_footnote_list, 3);
    if fs.len() == 0 {
        assert(fs.push(f).drop_first() =~= Seq::<FootnoteView>::empty());
        assert(fs.push(f)[0] == f);
        assert(enc_footnote_list(fs) =~= Seq::<u8>::empty());
        assert(enc_footnote_list(fs.push(f)) =~= enc_footnote_list(fs) + enc_footnote(f));
    } else {
        assert(fs.push(f).drop_first() =~= fs.drop_first().push(f));
        assert(fs.push(f)[0] == fs[0]);
        lemma_enc_footnote_list_push(fs.drop_first(), f);
        assert(enc_footnote_list(fs.push(f)) =~= enc_footnote_list(fs) + enc_footnote(f));
    }
}

// ---------------------------------------------------------------------------
// Parsers advance and stay within the buffer
// ---------------------------------------------------------------------------

pub proof fn lemma_parse_style_advance(data: Seq<u8>, pos: int)
    ensures
        parse_style_at(data, pos) matches Ok((st, np)) ==> pos < np <= data.len(),
{
}

pub proof fn lemma_parse_n_styles_advance(data: Seq<u8>, pos: int, n: u64)
    requires
        pos <= data.len(),
    ensures
        parse_n_styles(data, pos, n) matches Ok((ss, np)) ==> pos <= np <= data.len() && ss.len()
            == n && (n == 0 ==> np == pos),
    decreases n,
{
    if n > 0 {
        lemma_parse_style_advance(data, pos);
        match parse_style_at(data, pos) {
            Ok((st, p)) => {
                lemma_parse_n_styles_advance(data, p, (n - 1) as u64);
            },
            _ => {},
        }
    }
}

pub proof fn lemma_parse_span_advance(data: Seq<u8>, pos: int)
    ensures
        parse_span_at(data, pos) matches Ok((sp, np)) ==> pos < np <= data.len(),
{
    match parse_str_at(data, pos) {
        Ok((text, p1)) => {
            match parse_u64_at(data, p1) {
                Ok((nstyles, p2)) => {
                    lemma_parse_n_styles_advance(data, p2, nstyles);
                },
                _ => {},
            }
        },
        _ => {},
    }
}

pub proof fn lemma_parse_n_spans_advance(data: Seq<u8>, pos: int, n: u64)
    requires
        pos <= data.len(),
    ensures
        parse_n_spans(data, pos, n) matches Ok((ss, np)) ==> pos <= np <= data.len() && ss.len()
            == n && (n == 0 ==> np == pos),
    decreases n,
{
    if n > 0 {
        lemma_parse_span_advance(data, pos);
        match parse_span_at(data, pos) {
            Ok((sp, p)) => {
                lemma_parse_n_spans_advance(data, p, (n - 1) as u64);
            },
            _ => {},
        }
    }
}

pub proof fn lemma_parse_span_vec_advance(data: Seq<u8>, pos: int)
    ensures
        parse_span_vec_at(data, pos) matches Ok((ss, np)) ==> pos < np <= data.len(),
{
    match parse_u64_at(data, pos) {
        Ok((n, p)) => {
            lemma_parse_n_spans_advance(data, p, n);
        },
        _ => {},
    }
}

pub proof fn lemma_parse_elm_advance(data: Seq<u8>, pos: int)
    ensures
        parse_elm_at(data, pos) matches Ok((e, np)) ==> pos < np <= data.len(),
{
    match parse_u8_at(data, pos) {
        Ok((t, p)) => {
            if t == TAG_HEADER {
                match parse_u8_at(data, p) {
                    Ok((level, p1)) => {
                        lemma_parse_span_advance(data, p1);
                    },
                    _ => {},
                }
            } else if t == TAG_PARAGRAPH {
                lemma_parse_span_vec_advance(data, p);
            }
        },
        _ => {},
    }
}

// ---------------------------------------------------------------------------
// Locating the first unsupported element
// ---------------------------------------------------------------------------

/// No unsupported element is found exactly when every element is supported.
pub proof fn lemma_find_unsupported_elm_none(es: Seq<DocElmView>)
    ensures
        find_unsupported_elm(es) is None <==> elms_supported(es),
    decreases es.len(),
{
    if es.len() > 0 {
        lemma_find_unsupported_elm_none(es.drop_first());
        if elm_supported(es[0]) && elms_supported(es.drop_first()) {
            assert forall|i: int| 0 <= i < es.len() implies elm_supported(#[trigger] es[i]) by {
                if i > 0 {
                    assert(es[i] == es.drop_first()[i - 1]);
                }
            }
        }
        if elms_supported(es) {
            assert(elms_supported(es.drop_first())) by {
                assert forall|i: int|
                    0 <= i < es.drop_first().len() implies elm_supported(
                    #[trigger] es.drop_first()[i],
                ) by {
                    assert(es.drop_first()[i] == es[i + 1]);
                }
            }
        }
    }
}

/// The first unsupported element of a sequence is the one the encoder stops at.
pub proof fn lemma_find_unsupported_elm_at(es: Seq<DocElmView>, i: int)
    requires
        0 <= i < es.len(),
        forall|j: int| 0 <= j < i ==> elm_supported(#[trigger] es[j]),
        !elm_supported(es[i]),
    ensures
        find_unsupported_elm(es) == Some(es[i]),
    decreases i,
{
    if i > 0 {
        assert(elm_supported(es[0]));
        assert(es.drop_first()[i - 1] == es[i]);
        assert(forall|j: int| 0 <= j < i - 1 ==> #[trigger] es.drop_first()[j] == es[j + 1]);
        lemma_find_unsupported_elm_at(es.drop_first(), i - 1);
    }
}

/// No unsupported element is found in the footnotes exactly when every
/// footnote body is fully supported.
pub proof fn lemma_find_unsupported_footnote_none(fs: Seq<FootnoteView>)
    ensures
        find_unsupported_footnote(fs) is None <==> (forall|i: int|
            0 <= i < fs.len() ==> elms_supported(#[trigger] fs[i].body)),
    decreases fs.len(),
{
    if fs.len() > 0 {
        lemma_find_unsupported_elm_none(fs[0].body);
        lemma_find_unsupported_footnote_none(fs.drop_first());
        assert(forall|i: int|
            0 <= i < fs.drop_first().len() ==> #[trigger] fs.drop_first()[i] == fs[i + 1]);
        if elms_supported(fs[0].body) && (forall|i: int|
            0 <= i < fs.drop_first().len() ==> elms_supported(#[trigger] fs.drop_first()[i].body)) {
            assert forall|i: int| 0 <= i < fs.len() implies elms_supported(
                #[trigger] fs[i].body,
            ) by {
                if i > 0 {
                    assert(fs[i] == fs.drop_first()[i - 1]);
                }
            }
        }
    }
}

/// The first unsupported element across footnote bodies, located.
pub proof fn lemma_find_unsupported_footnote_at(fs: Seq<FootnoteView>, i: int, e: DocElmView)
    requires
        0 <= i < fs.len(),
        forall|j: int| 0 <= j < i ==> elms_supported(#[trigger] fs[j].body),
        find_unsupported_elm(fs[i].body) == Some(e),
    ensures
        find_unsupported_footnote(fs) == Some(e),
    decreases i,
{
    if i == 0 {
    } else {
        lemma_find_unsupported_elm_none(fs[0].body);
        assert(fs.drop_first()[i - 1] == fs[i]);
        assert(forall|j: int| 0 <= j < i - 1 ==> #[trigger] fs.drop_first()[j] == fs[j + 1]);
        lemma_find_unsupported_footnote_at(fs.drop_first(), i - 1, e);
    }
}

} // verus!
