//! The container codec: `serialize_ir` writes a document to one byte
//! sequence, `deserialize_ir` validates, checksums and parses one back.
//! Every function is verified against the wire-format specification in
//! `wire`.

use vstd::prelude::*;
use vstd::slice::{slice_subrange, slice_to_vec};
use vstd::utf8::{decode_utf8, valid_utf8};

use crate::checksum::compute_checksum;
use crate::digits::{hex_digits, u32_to_hex, u8_to_dec};
use crate::errors::{FracFormatError, FracFormatErrorView};
use crate::frac::{
    DocElm, DocElmView, Footnote, FootnoteView, Header, IntermediateRep, Paragraph, Span,
    SpanView, Style, StyleView,
};
use crate::wire::{
    cont_body, cont_elms, cont_footnotes, cont_spans, cont_styles, container_bytes,
    container_fits, elm_supported, elm_variant_name, elms_supported, enc_elm, enc_elms,
    enc_footnote_list, enc_footnotes, enc_span, enc_span_vec, enc_spans, enc_str, enc_style,
    enc_styles, enc_u32_le, enc_u64_le, fault_error, find_unsupported_footnote,
    lemma_enc_elms_push, lemma_enc_footnote_list_push, lemma_enc_spans_push,
    lemma_enc_styles_push, lemma_find_unsupported_elm_at, lemma_find_unsupported_elm_none,
    lemma_find_unsupported_footnote_at, lemma_find_unsupported_footnote_none,
    lemma_parse_elm_advance, parse_body, parse_elm_at, parse_footnote_at, parse_n_elms,
    parse_n_footnotes, parse_n_spans, parse_n_styles, parse_span_at, parse_span_vec_at,
    parse_str_at, parse_style_at, parse_u32_at, parse_u64_at, parse_u8_at, spec_deserialize,
    spec_reserved, spec_serialize, unsupported_message, WireFault, FORMAT_VERSION,
    HEADER_RESERVED_BYTES, HEADER_SIZE, MAGIC_0, MAGIC_1, MAGIC_2, MAGIC_3, STYLE_TAG_BOLD,
    STYLE_TAG_CODE, STYLE_TAG_HIGHLIGHT, STYLE_TAG_ITALIC, STYLE_TAG_LINK,
    STYLE_TAG_STRIKETHROUGH, TAG_HEADER, TAG_PARAGRAPH,
};

verus! {

// ---------------------------------------------------------------------------
// Serialization helpers
// ---------------------------------------------------------------------------

/// Appends a 32-bit value in little-endian order.
fn write_u32(buf: &mut Vec<u8>, v: u32)
    ensures
        final(buf)@ == old(buf)@ + enc_u32_le(v),
{
    buf.push((v & 0xff) as u8);
    buf.push(((v >> 8) & 0xff) as u8);
    buf.push(((v >> 16) & 0xff) as u8);
    buf.push(((v >> 24) & 0xff) as u8);
    proof {
        assert(buf@ =~= old(buf)@ + enc_u32_le(v));
    }
}

/// Appends a 64-bit value in little-endian order.
fn write_u64(buf: &mut Vec<u8>, v: u64)
    ensures
        final(buf)@ == old(buf)@ + enc_u64_le(v),
{
    buf.push((v & 0xff) as u8);
    buf.push(((v >> 8) & 0xff) as u8);
    buf.push(((v >> 16) & 0xff) as u8);
    buf.push(((v >> 24) & 0xff) as u8);
    buf.push(((v >> 32) & 0xff) as u8);
    buf.push(((v >> 40) & 0xff) as u8);
    buf.push(((v >> 48) & 0xff) as u8);
    buf.push(((v >> 56) & 0xff) as u8);
    proof {
        assert(buf@ =~= old(buf)@ + enc_u64_le(v));
    }
}

/// Appends a length-prefixed UTF-8 string.
fn write_string(buf: &mut Vec<u8>, s: &str)
    ensures
        final(buf)@ == old(buf)@ + enc_str(s@),
{
    let mut bytes: Vec<u8> = s.as_bytes_vec();
    write_u64(buf, bytes.len() as u64);
    buf.append(&mut bytes);
    proof {
        assert(buf@ =~= old(buf)@ + enc_str(s@));
    }
}

/// Appends one style as a tag byte, plus the href string for a link.
fn write_style(buf: &mut Vec<u8>, st: &Style)
    ensures
        final(buf)@ == old(buf)@ + enc_style(st@),
{
    match st {
        Style::Italic => buf.push(STYLE_TAG_ITALIC),
        Style::Bold => buf.push(STYLE_TAG_BOLD),
        Style::Code => buf.push(STYLE_TAG_CODE),
        Style::Link { href } => {
            buf.push(STYLE_TAG_LINK);
            write_string(buf, href.as_str());
        },
        Style::Strikethrough => buf.push(STYLE_TAG_STRIKETHROUGH),
        Style::Highlight => buf.push(STYLE_TAG_HIGHLIGHT),
    }
    proof {
        assert(buf@ =~= old(buf)@ + enc_style(st@));
    }
}

/// Appends one span: text, count-prefixed styles, optional footnote
/// reference, optional checkbox state.
fn write_span(buf: &mut Vec<u8>, span: &Span)
    ensures
        final(buf)@ == old(buf)@ + enc_span(span@),
{
    write_string(buf, span.text.as_str());
    write_u64(buf, span.styles.len() as u64);
    let ghost styles_start = buf@;
    let n = span.styles.len();
    let mut i: usize = 0;
    while i < n
        invariant
            i <= n,
            n == span.styles.len(),
            buf@ == styles_start + enc_styles(span@.styles.take(i as int)),
        decreases n - i,
    {
        write_style(buf, &span.styles[i]);
        proof {
            assert(span@.styles.take((i + 1) as int) =~= span@.styles.take(i as int).push(
                span@.styles[i as int],
            ));
            lemma_enc_styles_push(span@.styles.take(i as int), span@.styles[i as int]);
        }
        i += 1;
    }
    proof {
        assert(span@.styles.take(n as int) =~= span@.styles);
    }
    match &span.footnote {
        Some(s) => {
            buf.push(1);
            write_string(buf, s.as_str());
        },
        None => buf.push(0),
    }
    match span.checkbox {
        Some(b) => {
            buf.push(1);
            buf.push(if b { 1 } else { 0 });
        },
        None => buf.push(0),
    }
    proof {
        assert(buf@ =~= old(buf)@ + enc_span(span@));
    }
}

/// Appends a count-prefixed sequence of spans.
fn write_span_vec(buf: &mut Vec<u8>, spans: &Vec<Span>)
    ensures
        final(buf)@ == old(buf)@ + enc_span_vec(spans.deep_view()),
{
    write_u64(buf, spans.len() as u64);
    let ghost spans_start = buf@;
    let n = spans.len();
    let mut i: usize = 0;
    while i < n
        invariant
            i <= n,
            n == spans.len(),
            buf@ == spans_start + enc_spans(spans.deep_view().take(i as int)),
        decreases n - i,
    {
        write_span(buf, &spans[i]);
        proof {
            assert(spans.deep_view().take((i + 1) as int) =~= spans.deep_view().take(
                i as int,
            ).push(spans.deep_view()[i as int]));
            lemma_enc_spans_push(spans.deep_view().take(i as int), spans.deep_view()[i as int]);
        }
        i += 1;
    }
    proof {
        assert(spans.deep_view().take(n as int) =~= spans.deep_view());
        assert(buf@ =~= old(buf)@ + enc_span_vec(spans.deep_view()));
    }
}

/// The variant name of an element, for the unsupported-feature error.
fn elm_variant_name_str(elm: &DocElm) -> (r: &'static str)
    ensures
        r@ == elm_variant_name(elm@),
{
    proof {
        reveal_strlit("Header");
        reveal_strlit("Paragraph");
        reveal_strlit("Citation");
        reveal_strlit("List");
        reveal_strlit("Image");
        reveal_strlit("CodeBlock");
        reveal_strlit("Table");
        reveal_strlit("Break");
    }
    match elm {
        DocElm::Header(_) => "Header",
        DocElm::Paragraph(_) => "Paragraph",
        DocElm::Citation(_) => "Citation",
        DocElm::List(_) => "List",
        DocElm::Image(_) => "Image",
        DocElm::CodeBlock(_) => "CodeBlock",
        DocElm::Table(_) => "Table",
        DocElm::Break => "Break",
    }
}

/// The error that rejects an unsupported element, naming its variant.
fn unsupported_error(elm: &DocElm) -> (e: FracFormatError)
    ensures
        e@ == FracFormatErrorView::UnsupportedFeature(unsupported_message(elm@)),
{
    let mut m = String::from_str(elm_variant_name_str(elm));
    m.append(" elements are not yet supported");
    FracFormatError::UnsupportedFeature(m)
}

/// Appends one element as a tagged variant, or rejects it as unsupported
/// without writing anything.
fn write_doc_elm(buf: &mut Vec<u8>, elm: &DocElm) -> (r: Result<(), FracFormatError>)
    ensures
        match r {
            Ok(()) => elm_supported(elm@) && final(buf)@ == old(buf)@ + enc_elm(elm@),
            Err(e) => !elm_supported(elm@) && final(buf)@ == old(buf)@ && e@
                == FracFormatErrorView::UnsupportedFeature(unsupported_message(elm@)),
        },
{
    match elm {
        DocElm::Header(h) => {
            buf.push(TAG_HEADER);
            buf.push(h.level);
            write_span(buf, &h.text);
            proof {
                assert(buf@ =~= old(buf)@ + enc_elm(elm@));
            }
            Ok(())
        },
        DocElm::Paragraph(p) => {
            buf.push(TAG_PARAGRAPH);
            write_span_vec(buf, &p.text);
            proof {
                assert(buf@ =~= old(buf)@ + enc_elm(elm@));
            }
            Ok(())
        },
        _ => Err(unsupported_error(elm)),
    }
}

/// Appends the footnotes section: the count, then each record with its
/// title and count-prefixed body elements.  Fails at the first unsupported
/// element of any footnote body.
fn write_footnotes(buf: &mut Vec<u8>, footnotes: &Vec<Footnote>) -> (r: Result<
    (),
    FracFormatError,
>)
    ensures
        match r {
            Ok(()) => find_unsupported_footnote(footnotes.deep_view()) is None && final(buf)@
                == old(buf)@ + enc_u64_le(footnotes@.len() as u64) + enc_footnote_list(
                footnotes.deep_view(),
            ),
            Err(e) => find_unsupported_footnote(footnotes.deep_view()) matches Some(u) && e@
                == FracFormatErrorView::UnsupportedFeature(unsupported_message(u)),
        },
{
    write_u64(buf, footnotes.len() as u64);
    let ghost list_start = buf@;
    let ghost fsv = footnotes.deep_view();
    let n = footnotes.len();
    let mut i: usize = 0;
    while i < n
        invariant
            i <= n,
            n == footnotes.len(),
            fsv == footnotes.deep_view(),
            forall|k: int| 0 <= k < i ==> elms_supported(#[trigger] fsv[k].body),
            buf@ == list_start + enc_footnote_list(fsv.take(i as int)),
        decreases n - i,
    {
        let note = &footnotes[i];
        write_string(buf, note.title.as_str());
        write_u64(buf, note.body.len() as u64);
        let ghost body_start = buf@;
        let ghost bodyv = fsv[i as int].body;
        let m = note.body.len();
        let mut j: usize = 0;
        while j < m
            invariant
                j <= m,
                m == note.body.len(),
                bodyv == note.body.deep_view(),
                fsv == footnotes.deep_view(),
                i < n,
                n == footnotes.len(),
                note == &footnotes@[i as int],
                bodyv == fsv[i as int].body,
                forall|k: int| 0 <= k < i ==> elms_supported(#[trigger] fsv[k].body),
                forall|k: int| 0 <= k < j ==> elm_supported(#[trigger] bodyv[k]),
                buf@ == body_start + enc_elms(bodyv.take(j as int)),
            decreases m - j,
        {
            match write_doc_elm(buf, &note.body[j]) {
                Ok(()) => {
                    proof {
                        assert(bodyv.take((j + 1) as int) =~= bodyv.take(j as int).push(
                            bodyv[j as int],
                        ));
                        lemma_enc_elms_push(bodyv.take(j as int), bodyv[j as int]);
                    }
                    j += 1;
                },
                Err(e) => {
                    proof {
                        lemma_find_unsupported_elm_at(bodyv, j as int);
                        lemma_find_unsupported_footnote_at(fsv, i as int, bodyv[j as int]);
                    }
                    return Err(e);
                },
            }
        }
        proof {
            assert(bodyv.take(m as int) =~= bodyv);
            assert(elms_supported(bodyv));
            assert(fsv.take((i + 1) as int) =~= fsv.take(i as int).push(fsv[i as int]));
            lemma_enc_footnote_list_push(fsv.take(i as int), fsv[i as int]);
            assert(buf@ =~= list_start + enc_footnote_list(fsv.take((i + 1) as int)));
        }
        i += 1;
    }
    proof {
        assert(fsv.take(n as int) =~= fsv);
        lemma_find_unsupported_footnote_none(fsv);
    }
    Ok(())
}

// ---------------------------------------------------------------------------
// Encoding a document
// ---------------------------------------------------------------------------

/// Encodes a document into one self-describing container: header (magic,
/// checksum, version, offsets, reserved padding), body elements in order,
/// then the footnotes section.  Returns exactly the bytes the wire
/// specification assigns to the document; rejects the first unsupported
/// element with an `UnsupportedFeature` error, and a body too large for the
/// offset field with an `Io` error.  Metadata fields are not persisted.
pub fn serialize_ir(ir: &IntermediateRep) -> (r: Result<Vec<u8>, FracFormatError>)
    ensures
        match r {
            Ok(bytes) => spec_serialize(ir.body.deep_view(), ir.footnotes.deep_view()) == Ok::<
                Seq<u8>,
                FracFormatErrorView,
            >(bytes@),
            Err(e) => spec_serialize(ir.body.deep_view(), ir.footnotes.deep_view()) == Err::<
                Seq<u8>,
                FracFormatErrorView,
            >(e@),
        },
{
    let ghost bodyv = ir.body.deep_view();
    let ghost fov = ir.footnotes.deep_view();

    let mut body_buf: Vec<u8> = Vec::new();
    let n = ir.body.len();
    let mut i: usize = 0;
    while i < n
        invariant
            i <= n,
            n == ir.body.len(),
            bodyv == ir.body.deep_view(),
            fov == ir.footnotes.deep_view(),
            forall|k: int| 0 <= k < i ==> elm_supported(#[trigger] bodyv[k]),
            body_buf@ == enc_elms(bodyv.take(i as int)),
        decreases n - i,
    {
        match write_doc_elm(&mut body_buf, &ir.body[i]) {
            Ok(()) => {
                proof {
                    assert(bodyv.take((i + 1) as int) =~= bodyv.take(i as int).push(
                        bodyv[i as int],
                    ));
                    lemma_enc_elms_push(bodyv.take(i as int), bodyv[i as int]);
                }
                i += 1;
            },
            Err(e) => {
                proof {
                    lemma_find_unsupported_elm_at(bodyv, i as int);
                }
                return Err(e);
            },
        }
    }
    proof {
        assert(bodyv.take(n as int) =~= bodyv);
        lemma_find_unsupported_elm_none(bodyv);
    }

    let mut foot_buf: Vec<u8> = Vec::new();
    match &ir.footnotes {
        Some(footnotes) => {
            match write_footnotes(&mut foot_buf, footnotes) {
                Ok(()) => {},
                Err(e) => {
                    return Err(e);
                },
            }
        },
        None => {
            write_u64(&mut foot_buf, 0);
        },
    }
    proof {
        assert(foot_buf@ =~= enc_footnotes(fov));
    }

    if body_buf.len() as u64 > 0xffff_ffffu64 - (HEADER_SIZE as u64) {
        proof {
            assert(!container_fits(bodyv));
        }
        return Err(FracFormatError::Io(String::from_str("document body too large")));
    }

    let checksum = compute_checksum(body_buf.as_slice(), foot_buf.as_slice());
    let body_offset: u32 = HEADER_SIZE as u32;
    let footnotes_offset: u32 = (HEADER_SIZE as u64 + body_buf.len() as u64) as u32;

    let mut out: Vec<u8> = Vec::new();
    out.push(MAGIC_0);
    out.push(MAGIC_1);
    out.push(MAGIC_2);
    out.push(MAGIC_3);
    write_u32(&mut out, checksum);
    out.push(FORMAT_VERSION);
    write_u32(&mut out, body_offset);
    write_u32(&mut out, footnotes_offset);
    let ghost header_prefix = out@;
    let mut k: usize = 0;
    while k < HEADER_RESERVED_BYTES
        invariant
            k <= HEADER_RESERVED_BYTES,
            out@ == header_prefix + Seq::<u8>::new(k as nat, |q: int| 0u8),
        decreases HEADER_RESERVED_BYTES - k,
    {
        out.push(0);
        proof {
            assert(out@ =~= header_prefix + Seq::<u8>::new((k + 1) as nat, |q: int| 0u8));
        }
        k += 1;
    }
    proof {
        assert(Seq::<u8>::new(HEADER_RESERVED_BYTES as nat, |q: int| 0u8) =~= spec_reserved());
    }
    out.append(&mut body_buf);
    out.append(&mut foot_buf);
    proof {
        assert(out@ =~= container_bytes(bodyv, fov));
    }
    Ok(out)
}

// ---------------------------------------------------------------------------
// Deserialization helpers
// ---------------------------------------------------------------------------

/// Relies on `String::from_utf8`: it succeeds exactly when the bytes are
/// valid UTF-8, and then returns the string those bytes encode.
#[verifier::external_body]
fn string_from_utf8(bytes: Vec<u8>) -> (r: Option<String>)
    ensures
        match r {
            Some(s) => valid_utf8(bytes@) && s@ == decode_utf8(bytes@),
            None => !valid_utf8(bytes@),
        },
{
    String::from_utf8(bytes).ok()
}

/// The error for a read that ran past the end of the buffer.
fn err_short() -> (e: FracFormatError)
    ensures
        e@ == fault_error(WireFault::Short),
{
    FracFormatError::Io(String::from_str("unexpected end of input"))
}

fn read_u8(data: &[u8], pos: usize) -> (r: Result<(u8, usize), FracFormatError>)
    ensures
        match r {
            Ok((v, np)) => parse_u8_at(data@, pos as int) == Ok::<(u8, int), WireFault>(
                (v, np as int),
            ),
            Err(e) => parse_u8_at(data@, pos as int) matches Err(f) && e@ == fault_error(f),
        },
{
    if pos < data.len() {
        Ok((data[pos], pos + 1))
    } else {
        Err(err_short())
    }
}

fn read_u32(data: &[u8], pos: usize) -> (r: Result<(u32, usize), FracFormatError>)
    ensures
        match r {
            Ok((v, np)) => parse_u32_at(data@, pos as int) == Ok::<(u32, int), WireFault>(
                (v, np as int),
            ),
            Err(e) => parse_u32_at(data@, pos as int) matches Err(f) && e@ == fault_error(f),
        },
{
    if pos < data.len() && data.len() - pos >= 4 {
        let v = (data[pos] as u32) | ((data[pos + 1] as u32) << 8) | ((data[pos + 2] as u32)
            << 16) | ((data[pos + 3] as u32) << 24);
        Ok((v, pos + 4))
    } else {
        Err(err_short())
    }
}

fn read_u64(data: &[u8], pos: usize) -> (r: Result<(u64, usize), FracFormatError>)
    ensures
        match r {
            Ok((v, np)) => parse_u64_at(data@, pos as int) == Ok::<(u64, int), WireFault>(
                (v, np as int),
            ),
            Err(e) => parse_u64_at(data@, pos as int) matches Err(f) && e@ == fault_error(f),
        },
{
    if pos < data.len() && data.len() - pos >= 8 {
        let v = (data[pos] as u64) | ((data[pos + 1] as u64) << 8) | ((data[pos + 2] as u64)
            << 16) | ((data[pos + 3] as u64) << 24) | ((data[pos + 4] as u64) << 32) | ((data[pos
            + 5] as u64) << 40) | ((data[pos + 6] as u64) << 48) | ((data[pos + 7] as u64) << 56);
        Ok((v, pos + 8))
    } else {
        Err(err_short())
    }
}

/// Reads a length-prefixed UTF-8 string.
fn read_string(data: &[u8], pos: usize) -> (r: Result<(String, usize), FracFormatError>)
    ensures
        match r {
            Ok((s, np)) => parse_str_at(data@, pos as int) == Ok::<(Seq<char>, int), WireFault>(
                (s@, np as int),
            ),
            Err(e) => parse_str_at(data@, pos as int) matches Err(f) && e@ == fault_error(f),
        },
{
    let (n, p) = match read_u64(data, pos) {
        Ok(v) => v,
        Err(e) => {
            return Err(e);
        },
    };
    if n <= (data.len() - p) as u64 {
        let end = p + (n as usize);
        let byte_vec = slice_to_vec(slice_subrange(data, p, end));
        match string_from_utf8(byte_vec) {
            Some(s) => Ok((s, end)),
            None => Err(
                FracFormatError::InvalidData(String::from_str("invalid utf-8 in string")),
            ),
        }
    } else {
        Err(err_short())
    }
}

/// Reads one style tag, plus the href string for a link.
fn read_style(data: &[u8], pos: usize) -> (r: Result<(Style, usize), FracFormatError>)
    ensures
        match r {
            Ok((st, np)) => parse_style_at(data@, pos as int) == Ok::<
                (StyleView, int),
                WireFault,
            >((st@, np as int)),
            Err(e) => parse_style_at(data@, pos as int) matches Err(f) && e@ == fault_error(f),
        },
{
    let (t, p) = match read_u8(data, pos) {
        Ok(v) => v,
        Err(e) => {
            return Err(e);
        },
    };
    if t == STYLE_TAG_ITALIC {
        Ok((Style::Italic, p))
    } else if t == STYLE_TAG_BOLD {
        Ok((Style::Bold, p))
    } else if t == STYLE_TAG_CODE {
        Ok((Style::Code, p))
    } else if t == STYLE_TAG_LINK {
        match read_string(data, p) {
            Ok((href, p2)) => Ok((Style::Link { href }, p2)),
            Err(e) => Err(e),
        }
    } else if t == STYLE_TAG_STRIKETHROUGH {
        Ok((Style::Strikethrough, p))
    } else if t == STYLE_TAG_HIGHLIGHT {
        Ok((Style::Highlight, p))
    } else {
        let d = u8_to_dec(t);
        let mut m = String::from_str("Unknown style tag ");
        m.append(d.as_str());
        Err(FracFormatError::InvalidData(m))
    }
}

/// Reads one span, field for field in the order the encoder writes them.
fn read_span(data: &[u8], pos: usize) -> (r: Result<(Span, usize), FracFormatError>)
    ensures
        match r {
            Ok((sp, np)) => parse_span_at(data@, pos as int) == Ok::<(SpanView, int), WireFault>(
                (sp@, np as int),
            ),
            Err(e) => parse_span_at(data@, pos as int) matches Err(f) && e@ == fault_error(f),
        },
{
    let (text, p1) = match read_string(data, pos) {
        Ok(v) => v,
        Err(e) => {
            return Err(e);
        },
    };
    let (nstyles, p2) = match read_u64(data, p1) {
        Ok(v) => v,
        Err(e) => {
            return Err(e);
        },
    };
    let mut styles: Vec<Style> = Vec::new();
    let mut p: usize = p2;
    let mut k: u64 = 0;
    while k < nstyles
        invariant
            k <= nstyles,
            parse_str_at(data@, pos as int) == Ok::<(Seq<char>, int), WireFault>(
                (text@, p1 as int),
            ),
            parse_u64_at(data@, p1 as int) == Ok::<(u64, int), WireFault>((nstyles, p2 as int)),
            cont_styles(data@, p as int, (nstyles - k) as u64, styles.deep_view())
                == parse_n_styles(data@, p2 as int, nstyles),
        decreases nstyles - k,
    {
        match read_style(data, p) {
            Ok((st, pn)) => {
                let ghost prev = styles.deep_view();
                let ghost nrem = (nstyles - k) as u64;
                styles.push(st);
                proof {
                    assert(styles.deep_view() =~= prev.push(st@));
                    match parse_n_styles(data@, pn as int, (nrem - 1) as u64) {
                        Ok((rest, fin)) => {
                            assert(prev + (seq![st@] + rest) =~= prev.push(st@) + rest);
                        },
                        _ => {},
                    }
                    assert(cont_styles(data@, pn as int, (nrem - 1) as u64, styles.deep_view())
                        == parse_n_styles(data@, p2 as int, nstyles));
                }
                p = pn;
                k = k + 1;
            },
            Err(e) => {
                return Err(e);
            },
        }
    }
    proof {
        assert(styles.deep_view() + Seq::<StyleView>::empty() =~= styles.deep_view());
        assert(parse_n_styles(data@, p2 as int, nstyles) == Ok::<(Seq<StyleView>, int), WireFault>(
            (styles.deep_view(), p as int),
        ));
    }
    let (note, p4) = {
        let (b, p3) = match read_u8(data, p) {
            Ok(v) => v,
            Err(e) => {
                return Err(e);
            },
        };
        if b == 1 {
            match read_string(data, p3) {
                Ok((s, pn)) => (Some(s), pn),
                Err(e) => {
                    return Err(e);
                },
            }
        } else {
            (None, p3)
        }
    };
    let (cbox, p5) = {
        let (b, pc) = match read_u8(data, p4) {
            Ok(v) => v,
            Err(e) => {
                return Err(e);
            },
        };
        if b == 1 {
            let (v, pc2) = match read_u8(data, pc) {
                Ok(v) => v,
                Err(e) => {
                    return Err(e);
                },
            };
            (Some(v == 1), pc2)
        } else {
            (None, pc)
        }
    };
    let sp = Span { text, styles, footnote: note, checkbox: cbox };
    proof {
        assert(parse_span_at(data@, pos as int) == Ok::<(SpanView, int), WireFault>(
            (sp@, p5 as int),
        ));
    }
    Ok((sp, p5))
}

/// Reads a count-prefixed sequence of spans.
fn read_span_vec(data: &[u8], pos: usize) -> (r: Result<(Vec<Span>, usize), FracFormatError>)
    ensures
        match r {
            Ok((spans, np)) => parse_span_vec_at(data@, pos as int) == Ok::<
                (Seq<SpanView>, int),
                WireFault,
            >((spans.deep_view(), np as int)),
            Err(e) => parse_span_vec_at(data@, pos as int) matches Err(f) && e@ == fault_error(f),
        },
{
    let (count, p0) = match read_u64(data, pos) {
        Ok(v) => v,
        Err(e) => {
            return Err(e);
        },
    };
    let mut spans: Vec<Span> = Vec::new();
    let mut p: usize = p0;
    let mut k: u64 = 0;
    while k < count
        invariant
            k <= count,
            parse_u64_at(data@, pos as int) == Ok::<(u64, int), WireFault>((count, p0 as int)),
            cont_spans(data@, p as int, (count - k) as u64, spans.deep_view()) == parse_n_spans(
                data@,
                p0 as int,
                count,
            ),
        decreases count - k,
    {
        match read_span(data, p) {
            Ok((sp, pn)) => {
                let ghost prev = spans.deep_view();
                let ghost nrem = (count - k) as u64;
                spans.push(sp);
                proof {
                    assert(spans.deep_view() =~= prev.push(sp@));
                    match parse_n_spans(data@, pn as int, (nrem - 1) as u64) {
                        Ok((rest, fin)) => {
                            assert(prev + (seq![sp@] + rest) =~= prev.push(sp@) + rest);
                        },
                        _ => {},
                    }
                    assert(cont_spans(data@, pn as int, (nrem - 1) as u64, spans.deep_view())
                        == parse_n_spans(data@, p0 as int, count));
                }
                p = pn;
                k = k + 1;
            },
            Err(e) => {
                return Err(e);
            },
        }
    }
    proof {
        assert(spans.deep_view() + Seq::<SpanView>::empty() =~= spans.deep_view());
        assert(parse_n_spans(data@, p0 as int, count) == Ok::<(Seq<SpanView>, int), WireFault>(
            (spans.deep_view(), p as int),
        ));
    }
    Ok((spans, p))
}

/// Reads one element: the tag byte, then the matching variant's fields.  An
/// unrecognized tag is an invalid-data error naming the offending byte.
fn read_doc_elm(data: &[u8], pos: usize) -> (r: Result<(DocElm, usize), FracFormatError>)
    ensures
        match r {
            Ok((elm, np)) => parse_elm_at(data@, pos as int) == Ok::<(DocElmView, int), WireFault>(
                (elm@, np as int),
            ),
            Err(e) => parse_elm_at(data@, pos as int) matches Err(f) && e@ == fault_error(f),
        },
{
    let (tag, p) = match read_u8(data, pos) {
        Ok(v) => v,
        Err(e) => {
            return Err(e);
        },
    };
    if tag == TAG_HEADER {
        let (level, p1) = match read_u8(data, p) {
            Ok(v) => v,
            Err(e) => {
                return Err(e);
            },
        };
        match read_span(data, p1) {
            Ok((text, p2)) => Ok((DocElm::Header(Header { level, text }), p2)),
            Err(e) => Err(e),
        }
    } else if tag == TAG_PARAGRAPH {
        match read_span_vec(data, p) {
            Ok((text, p2)) => Ok((DocElm::Paragraph(Paragraph { text }), p2)),
            Err(e) => Err(e),
        }
    } else {
        let d = u8_to_dec(tag);
        let mut m = String::from_str("Unknown DocElm tag: ");
        m.append(d.as_str());
        Err(FracFormatError::InvalidData(m))
    }
}

/// Reads one footnote record: title, then a count-prefixed element body.
fn read_footnote(data: &[u8], pos: usize) -> (r: Result<(Footnote, usize), FracFormatError>)
    ensures
        match r {
            Ok((note, np)) => parse_footnote_at(data@, pos as int) == Ok::<
                (FootnoteView, int),
                WireFault,
            >((note@, np as int)),
            Err(e) => parse_footnote_at(data@, pos as int) matches Err(f) && e@ == fault_error(f),
        },
{
    let (title, p1) = match read_string(data, pos) {
        Ok(v) => v,
        Err(e) => {
            return Err(e);
        },
    };
    let (count, p2) = match read_u64(data, p1) {
        Ok(v) => v,
        Err(e) => {
            return Err(e);
        },
    };
    let mut body: Vec<DocElm> = Vec::new();
    let mut p: usize = p2;
    let mut k: u64 = 0;
    while k < count
        invariant
            k <= count,
            parse_str_at(data@, pos as int) == Ok::<(Seq<char>, int), WireFault>(
                (title@, p1 as int),
            ),
            parse_u64_at(data@, p1 as int) == Ok::<(u64, int), WireFault>((count, p2 as int)),
            cont_elms(data@, p as int, (count - k) as u64, body.deep_view()) == parse_n_elms(
                data@,
                p2 as int,
                count,
            ),
        decreases count - k,
    {
        match read_doc_elm(data, p) {
            Ok((elm, pn)) => {
                let ghost prev = body.deep_view();
                let ghost nrem = (count - k) as u64;
                body.push(elm);
                proof {
                    assert(body.deep_view() =~= prev.push(elm@));
                    match parse_n_elms(data@, pn as int, (nrem - 1) as u64) {
                        Ok((rest, fin)) => {
                            assert(prev + (seq![elm@] + rest) =~= prev.push(elm@) + rest);
                        },
                        _ => {},
                    }
                    assert(cont_elms(data@, pn as int, (nrem - 1) as u64, body.deep_view())
                        == parse_n_elms(data@, p2 as int, count));
                }
                p = pn;
                k = k + 1;
            },
            Err(e) => {
                return Err(e);
            },
        }
    }
    proof {
        assert(body.deep_view() + Seq::<DocElmView>::empty() =~= body.deep_view());
        assert(parse_n_elms(data@, p2 as int, count) == Ok::<(Seq<DocElmView>, int), WireFault>(
            (body.deep_view(), p as int),
        ));
    }
    Ok((Footnote { title, body }, p))
}

/// Reads body elements one after another until the cursor reaches `end`.
fn read_body(data: &[u8], start: usize, end: usize) -> (r: Result<Vec<DocElm>, FracFormatError>)
    requires
        start <= end <= data@.len(),
    ensures
        match r {
            Ok(body) => parse_body(data@, start as int, end as int) matches Ok((es, fin))
                && body.deep_view() == es,
            Err(e) => parse_body(data@, start as int, end as int) matches Err(f) && e@
                == fault_error(f),
        },
{
    let mut body: Vec<DocElm> = Vec::new();
    let mut pos: usize = start;
    while pos < end
        invariant
            start <= end <= data@.len(),
            pos <= data@.len(),
            cont_body(data@, pos as int, end as int, body.deep_view()) == parse_body(
                data@,
                start as int,
                end as int,
            ),
        decreases data@.len() - pos,
    {
        match read_doc_elm(data, pos) {
            Ok((elm, pn)) => {
                proof {
                    lemma_parse_elm_advance(data@, pos as int);
                }
                let ghost prev = body.deep_view();
                body.push(elm);
                proof {
                    assert(body.deep_view() =~= prev.push(elm@));
                    if (pn as int) < end as int {
                        match parse_body(data@, pn as int, end as int) {
                            Ok((rest, fin)) => {
                                assert(prev + (seq![elm@] + rest) =~= prev.push(elm@) + rest);
                            },
                            _ => {},
                        }
                    } else {
                        assert(prev + seq![elm@] =~= prev.push(elm@));
                        assert(prev.push(elm@) + Seq::<DocElmView>::empty() =~= prev.push(elm@));
                    }
                    assert(cont_body(data@, pn as int, end as int, body.deep_view())
                        == parse_body(data@, start as int, end as int));
                }
                pos = pn;
            },
            Err(e) => {
                return Err(e);
            },
        }
    }
    proof {
        assert(body.deep_view() + Seq::<DocElmView>::empty() =~= body.deep_view());
        assert(parse_body(data@, start as int, end as int) == Ok::<
            (Seq<DocElmView>, int),
            WireFault,
        >((body.deep_view(), pos as int)));
    }
    Ok(body)
}

/// Reads the footnotes section at `pos`: the 8-byte count, then that many
/// records.
fn read_footnote_list(data: &[u8], pos: usize) -> (r: Result<
    (u64, Vec<Footnote>),
    FracFormatError,
>)
    ensures
        match r {
            Ok((count, notes)) => parse_u64_at(data@, pos as int) == Ok::<(u64, int), WireFault>(
                (count, pos as int + 8),
            ) && (parse_n_footnotes(data@, pos as int + 8, count) matches Ok((fsv, fin))
                && notes.deep_view() == fsv),
            Err(e) => match parse_u64_at(data@, pos as int) {
                Err(f) => e@ == fault_error(f),
                Ok((n, p)) => parse_n_footnotes(data@, p, n) matches Err(f) && e@ == fault_error(
                    f,
                ),
            },
        },
{
    let (nfoot, pf0) = match read_u64(data, pos) {
        Ok(v) => v,
        Err(e) => {
            return Err(e);
        },
    };
    let mut notes: Vec<Footnote> = Vec::new();
    let mut p: usize = pf0;
    let mut k: u64 = 0;
    while k < nfoot
        invariant
            k <= nfoot,
            parse_u64_at(data@, pos as int) == Ok::<(u64, int), WireFault>((nfoot, pf0 as int)),
            cont_footnotes(data@, p as int, (nfoot - k) as u64, notes.deep_view())
                == parse_n_footnotes(data@, pf0 as int, nfoot),
        decreases nfoot - k,
    {
        match read_footnote(data, p) {
            Ok((note, pn)) => {
                let ghost prev = notes.deep_view();
                let ghost nrem = (nfoot - k) as u64;
                notes.push(note);
                proof {
                    assert(notes.deep_view() =~= prev.push(note@));
                    match parse_n_footnotes(data@, pn as int, (nrem - 1) as u64) {
                        Ok((rest, fin)) => {
                            assert(prev + (seq![note@] + rest) =~= prev.push(note@) + rest);
                        },
                        _ => {},
                    }
                    assert(cont_footnotes(data@, pn as int, (nrem - 1) as u64, notes.deep_view())
                        == parse_n_footnotes(data@, pf0 as int, nfoot));
                }
                p = pn;
                k = k + 1;
            },
            Err(e) => {
                return Err(e);
            },
        }
    }
    proof {
        assert(notes.deep_view() + Seq::<FootnoteView>::empty() =~= notes.deep_view());
        assert(parse_n_footnotes(data@, pf0 as int, nfoot) == Ok::<
            (Seq<FootnoteView>, int),
            WireFault,
        >((notes.deep_view(), p as int)));
    }
    Ok((nfoot, notes))
}

// ---------------------------------------------------------------------------
// Decoding a container
// ---------------------------------------------------------------------------

/// Decodes one container: validates the magic bytes and version, reads the
/// offsets, recomputes the checksum over the body and footnote regions the
/// offsets delimit and compares it with the stored value, then parses the
/// body until the footnotes offset and the count-prefixed footnote records.
/// A stored footnote count of zero yields an absent footnotes collection.
/// Metadata is not stored in the container: the result carries empty or
/// absent metadata, except `size` (the input length) and `checksum` (the hex
/// of the verified CRC-32).
#[verifier::rlimit(100)]
pub fn deserialize_ir(data: &[u8]) -> (r: Result<IntermediateRep, FracFormatError>)
    ensures
        match r {
            Ok(ir) => spec_deserialize(data@) matches Ok(d) && ir.body.deep_view() == d.body
                && ir.footnotes.deep_view() == d.footnotes && (ir.checksum matches Some(c) && c@
                == hex_digits(d.checksum as nat)) && ir.size == data@.len() && ir.count == 0
                && ir.title@ == Seq::<char>::empty() && ir.author is None
                && ir.last_modified is None && ir.tags is None,
            Err(e) => spec_deserialize(data@) matches Err(ev) && e@ == ev,
        },
{
    if data.len() < 4 {
        return Err(err_short());
    }
    if !(data[0] == MAGIC_0 && data[1] == MAGIC_1 && data[2] == MAGIC_2 && data[3] == MAGIC_3) {
        return Err(FracFormatError::InvalidHeader(String::from_str("Invalid magic bytes")));
    }
    let (stored, _ppos) = match read_u32(data, 4) {
        Ok(v) => v,
        Err(e) => {
            return Err(e);
        },
    };
    let (version, _vpos) = match read_u8(data, 8) {
        Ok(v) => v,
        Err(e) => {
            return Err(e);
        },
    };
    if version != FORMAT_VERSION {
        let d = u8_to_dec(version);
        let mut m = String::from_str("Unsupported version: ");
        m.append(d.as_str());
        return Err(FracFormatError::InvalidHeader(m));
    }
    let (body_off, _bpos) = match read_u32(data, 9) {
        Ok(v) => v,
        Err(e) => {
            return Err(e);
        },
    };
    let (foot_off, _fpos) = match read_u32(data, 13) {
        Ok(v) => v,
        Err(e) => {
            return Err(e);
        },
    };
    let bo = body_off as usize;
    let fo = foot_off as usize;
    if !(bo <= fo && fo <= data.len()) {
        return Err(
            FracFormatError::InvalidHeader(String::from_str("invalid container offsets")),
        );
    }
    let body_slice = slice_subrange(data, bo, fo);
    let foot_slice = slice_subrange(data, fo, data.len());
    let calculated = compute_checksum(body_slice, foot_slice);
    if stored != calculated {
        return Err(FracFormatError::InvalidData(String::from_str("Checksum mismatch")));
    }

    let body = match read_body(data, bo, fo) {
        Ok(b) => b,
        Err(e) => {
            return Err(e);
        },
    };
    let (nfoot, footnotes_vec) = match read_footnote_list(data, fo) {
        Ok(v) => v,
        Err(e) => {
            return Err(e);
        },
    };
    let footnotes = if nfoot == 0 {
        None
    } else {
        Some(footnotes_vec)
    };
    let checksum_hex = u32_to_hex(calculated);
    let ir = IntermediateRep {
        size: data.len() as u64,
        body,
        count: 0,
        last_modified: None,
        author: None,
        title: String::new(),
        checksum: Some(checksum_hex),
        tags: None,
        footnotes,
    };
    proof {
        assert(spec_deserialize(data@) matches Ok(d) && d.body == ir.body.deep_view()
            && d.footnotes == ir.footnotes.deep_view() && d.checksum == calculated);
    }
    Ok(ir)
}

} // verus!
