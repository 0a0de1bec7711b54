//! The codec's laws: a container built from any supported document parses
//! back to exactly that document (round-trip identity), unsupported elements
//! are always rejected at encode time, header validation and checksum
//! verification reject bad containers, and absent and empty footnote
//! collections are indistinguishable on the wire.

use vstd::prelude::*;
use vstd::utf8::{encode_utf8, encode_utf8_decode_utf8, encode_utf8_valid_utf8};

use crate::checksum::crc32_of;
use crate::digits::dec_digits;
use crate::errors::FracFormatErrorView;
use crate::frac::{DocElmView, FootnoteView, SpanView, StyleView};
use crate::wire::{
    container_bytes, container_fits, doc_fits, doc_supported, elm_fits, elm_supported,
    elms_supported, enc_elm, enc_elms, enc_footnote, enc_footnote_list, enc_footnotes,
    enc_opt_bool, enc_opt_str, enc_span, enc_spans, enc_str, enc_style, enc_styles, enc_u32_le,
    enc_u64_le, find_unsupported, fits_u64, footnote_fits, le_u32,
    lemma_find_unsupported_elm_none, lemma_find_unsupported_footnote_none, parse_body,
    parse_elm_at, parse_footnote_at, parse_n_elms, parse_n_footnotes, parse_n_spans,
    parse_n_styles, parse_opt_bool_at, parse_opt_str_at, parse_span_at, parse_str_at,
    parse_style_at, parse_u32_at, parse_u64_at, span_fits, spec_deserialize, spec_magic,
    spec_reserved, spec_serialize, str_fits, style_fits, DecodedView, WireFault, FORMAT_VERSION,
    HEADER_SIZE, MAGIC_0, MAGIC_1, MAGIC_2, MAGIC_3,
};

verus! {

// ---------------------------------------------------------------------------
// Splitting a window of the buffer along a concatenation
// ---------------------------------------------------------------------------

/// If a stretch of the buffer holds `a ++ b`, its two halves hold `a` and `b`.
proof fn lemma_window_split(data: Seq<u8>, pos: int, a: Seq<u8>, b: Seq<u8>)
    requires
        0 <= pos,
        pos + a.len() + b.len() <= data.len(),
        data.subrange(pos, pos + a.len() + b.len()) == a + b,
    ensures
        data.subrange(pos, pos + a.len()) == a,
        data.subrange(pos + a.len(), pos + a.len() + b.len()) == b,
{
    let w = data.subrange(pos, pos + a.len() + b.len());
    assert forall|i: int| 0 <= i < a.len() implies data[pos + i] == a[i] by {
        assert(w[i] == data[pos + i]);
        assert(w[i] == (a + b)[i]);
    }
    assert forall|i: int| 0 <= i < b.len() implies data[pos + a.len() + i] == b[i] by {
        assert(w[a.len() + i] == data[pos + a.len() + i]);
        assert(w[a.len() + i] == (a + b)[a.len() + i]);
    }
    assert(data.subrange(pos, pos + a.len()) =~= a);
    assert(data.subrange(pos + a.len(), pos + a.len() + b.len()) =~= b);
}

// ---------------------------------------------------------------------------
// Each parser inverts the matching encoder, wherever the encoding sits
// ---------------------------------------------------------------------------

proof fn lemma_u32_le_inverts(v: u32)
    by (bit_vector)
    ensures
        ((v & 0xff) as u8 as u32) | ((((v >> 8) & 0xff) as u8 as u32) << 8) | ((((v >> 16)
            & 0xff) as u8 as u32) << 16) | ((((v >> 24) & 0xff) as u8 as u32) << 24) == v,
{
}

proof fn lemma_u64_le_inverts(v: u64)
    by (bit_vector)
    ensures
        ((v & 0xff) as u8 as u64) | ((((v >> 8) & 0xff) as u8 as u64) << 8) | ((((v >> 16)
            & 0xff) as u8 as u64) << 16) | ((((v >> 24) & 0xff) as u8 as u64) << 24) | ((((v
            >> 32) & 0xff) as u8 as u64) << 32) | ((((v >> 40) & 0xff) as u8 as u64) << 40) | ((((
        v >> 48) & 0xff) as u8 as u64) << 48) | ((((v >> 56) & 0xff) as u8 as u64) << 56) == v,
{
}

proof fn lemma_parse_u32_of_enc(data: Seq<u8>, pos: int, v: u32)
    requires
        0 <= pos,
        pos + 4 <= data.len(),
        data.subrange(pos, pos + 4) == enc_u32_le(v),
    ensures
        parse_u32_at(data, pos) == Ok::<(u32, int), WireFault>((v, pos + 4)),
{
    assert(data[pos] == enc_u32_le(v)[0]);
    assert(data[pos + 1] == enc_u32_le(v)[1]);
    assert(data[pos + 2] == enc_u32_le(v)[2]);
    assert(data[pos + 3] == enc_u32_le(v)[3]);
    lemma_u32_le_inverts(v);
}

proof fn lemma_parse_u64_of_enc(data: Seq<u8>, pos: int, v: u64)
    requires
        0 <= pos,
        pos + 8 <= data.len(),
        data.subrange(pos, pos + 8) == enc_u64_le(v),
    ensures
        parse_u64_at(data, pos) == Ok::<(u64, int), WireFault>((v, pos + 8)),
{
    assert(data[pos] == enc_u64_le(v)[0]);
    assert(data[pos + 1] == enc_u64_le(v)[1]);
    assert(data[pos + 2] == enc_u64_le(v)[2]);
    assert(data[pos + 3] == enc_u64_le(v)[3]);
    assert(data[pos + 4] == enc_u64_le(v)[4]);
    assert(data[pos + 5] == enc_u64_le(v)[5]);
    assert(data[pos + 6] == enc_u64_le(v)[6]);
    assert(data[pos + 7] == enc_u64_le(v)[7]);
    lemma_u64_le_inverts(v);
}

proof fn lemma_parse_str_of_enc(data: Seq<u8>, pos: int, s: Seq<char>)
    requires
        str_fits(s),
        0 <= pos,
        pos + enc_str(s).len() <= data.len(),
        data.subrange(pos, pos + enc_str(s).len()) == enc_str(s),
    ensures
        parse_str_at(data, pos) == Ok::<(Seq<char>, int), WireFault>(
            (s, pos + enc_str(s).len()),
        ),
{
    let bytes = encode_utf8(s);
    let blen = bytes.len() as int;
    lemma_window_split(data, pos, enc_u64_le(bytes.len() as u64), bytes);
    lemma_parse_u64_of_enc(data, pos, bytes.len() as u64);
    assert((bytes.len() as u64) as int == blen);
    assert(data.subrange(pos + 8, pos + 8 + blen) == bytes);
    encode_utf8_valid_utf8(s);
    encode_utf8_decode_utf8(s);
}

proof fn lemma_parse_style_of_enc(data: Seq<u8>, pos: int, st: StyleView)
    requires
        style_fits(st),
        0 <= pos,
        pos + enc_style(st).len() <= data.len(),
        data.subrange(pos, pos + enc_style(st).len()) == enc_style(st),
    ensures
        parse_style_at(data, pos) == Ok::<(StyleView, int), WireFault>(
            (st, pos + enc_style(st).len()),
        ),
{
    assert(data[pos] == enc_style(st)[0]);
    match st {
        StyleView::Link { href } => {
            lemma_window_split(data, pos, seq![crate::wire::STYLE_TAG_LINK], enc_str(href));
            lemma_parse_str_of_enc(data, pos + 1, href);
        },
        _ => {},
    }
}

proof fn lemma_parse_n_styles_of_enc(data: Seq<u8>, pos: int, ss: Seq<StyleView>)
    requires
        fits_u64(ss.len()),
        forall|i: int| 0 <= i < ss.len() ==> style_fits(#[trigger] ss[i]),
        0 <= pos,
        pos + enc_styles(ss).len() <= data.len(),
        data.subrange(pos, pos + enc_styles(ss).len()) == enc_styles(ss),
    ensures
        parse_n_styles(data, pos, ss.len() as u64) == Ok::<(Seq<StyleView>, int), WireFault>(
            (ss, pos + enc_styles(ss).len()),
        ),
    decreases ss.len(),
{
    if ss.len() == 0 {
        assert(parse_n_styles(data, pos, 0) == Ok::<(Seq<StyleView>, int), WireFault>(
            (Seq::<StyleView>::empty(), pos),
        ));
        assert(ss =~= Seq::<StyleView>::empty());
    } else {
        let st = ss[0];
        let rest = ss.drop_first();
        lemma_window_split(data, pos, enc_style(st), enc_styles(rest));
        lemma_parse_style_of_enc(data, pos, st);
        let p = pos + enc_style(st).len();
        assert(forall|i: int| 0 <= i < rest.len() ==> #[trigger] rest[i] == ss[i + 1]);
        lemma_parse_n_styles_of_enc(data, p, rest);
        assert((ss.len() as u64 - 1) as u64 == rest.len() as u64);
        assert(seq![st] + rest =~= ss);
    }
}

proof fn lemma_parse_opt_str_of_enc(data: Seq<u8>, pos: int, o: Option<Seq<char>>)
    requires
        o matches Some(s) ==> str_fits(s),
        0 <= pos,
        pos + enc_opt_str(o).len() <= data.len(),
        data.subrange(pos, pos + enc_opt_str(o).len()) == enc_opt_str(o),
    ensures
        parse_opt_str_at(data, pos) == Ok::<(Option<Seq<char>>, int), WireFault>(
            (o, pos + enc_opt_str(o).len()),
        ),
{
    assert(data[pos] == enc_opt_str(o)[0]);
    match o {
        Some(s) => {
            lemma_window_split(data, pos, seq![1u8], enc_str(s));
            lemma_parse_str_of_enc(data, pos + 1, s);
        },
        None => {},
    }
}

proof fn lemma_parse_opt_bool_of_enc(data: Seq<u8>, pos: int, o: Option<bool>)
    requires
        0 <= pos,
        pos + enc_opt_bool(o).len() <= data.len(),
        data.subrange(pos, pos + enc_opt_bool(o).len()) == enc_opt_bool(o),
    ensures
        parse_opt_bool_at(data, pos) == Ok::<(Option<bool>, int), WireFault>(
            (o, pos + enc_opt_bool(o).len()),
        ),
{
    assert(data[pos] == enc_opt_bool(o)[0]);
    match o {
        Some(b) => {
            assert(data[pos + 1] == enc_opt_bool(o)[1]);
        },
        None => {},
    }
}

proof fn lemma_parse_span_of_enc(data: Seq<u8>, pos: int, sp: SpanView)
    requires
        span_fits(sp),
        0 <= pos,
        pos + enc_span(sp).len() <= data.len(),
        data.subrange(pos, pos + enc_span(sp).len()) == enc_span(sp),
    ensures
        parse_span_at(data, pos) == Ok::<(SpanView, int), WireFault>(
            (sp, pos + enc_span(sp).len()),
        ),
{
    let seg1 = enc_str(sp.text);
    let seg2 = enc_u64_le(sp.styles.len() as u64);
    let seg3 = enc_styles(sp.styles);
    let seg4 = enc_opt_str(sp.footnote);
    let seg5 = enc_opt_bool(sp.checkbox);
    assert(enc_span(sp) =~= seg1 + (seg2 + (seg3 + (seg4 + seg5))));
    lemma_window_split(data, pos, seg1, seg2 + (seg3 + (seg4 + seg5)));
    let p1 = pos + seg1.len();
    lemma_window_split(data, p1, seg2, seg3 + (seg4 + seg5));
    let p2 = p1 + seg2.len();
    lemma_window_split(data, p2, seg3, seg4 + seg5);
    let p3 = p2 + seg3.len();
    lemma_window_split(data, p3, seg4, seg5);
    let p4 = p3 + seg4.len();
    lemma_parse_str_of_enc(data, pos, sp.text);
    lemma_parse_u64_of_enc(data, p1, sp.styles.len() as u64);
    assert((sp.styles.len() as u64) as int == sp.styles.len() as int);
    lemma_parse_n_styles_of_enc(data, p2, sp.styles);
    lemma_parse_opt_str_of_enc(data, p3, sp.footnote);
    lemma_parse_opt_bool_of_enc(data, p4, sp.checkbox);
    assert(parse_span_at(data, pos) == Ok::<(SpanView, int), WireFault>(
        (
            SpanView {
                text: sp.text,
                styles: sp.styles,
                footnote: sp.footnote,
                checkbox: sp.checkbox,
            },
            p4 + seg5.len(),
        ),
    ));
}

proof fn lemma_parse_n_spans_of_enc(data: Seq<u8>, pos: int, ss: Seq<SpanView>)
    requires
        fits_u64(ss.len()),
        forall|i: int| 0 <= i < ss.len() ==> span_fits(#[trigger] ss[i]),
        0 <= pos,
        pos + enc_spans(ss).len() <= data.len(),
        data.subrange(pos, pos + enc_spans(ss).len()) == enc_spans(ss),
    ensures
        parse_n_spans(data, pos, ss.len() as u64) == Ok::<(Seq<SpanView>, int), WireFault>(
            (ss, pos + enc_spans(ss).len()),
        ),
    decreases ss.len(),
{
    if ss.len() == 0 {
        assert(ss =~= Seq::<SpanView>::empty());
    } else {
        let sp = ss[0];
        let rest = ss.drop_first();
        lemma_window_split(data, pos, enc_span(sp), enc_spans(rest));
        lemma_parse_span_of_enc(data, pos, sp);
        let p = pos + enc_span(sp).len();
        assert(forall|i: int| 0 <= i < rest.len() ==> #[trigger] rest[i] == ss[i + 1]);
        lemma_parse_n_spans_of_enc(data, p, rest);
        assert(seq![sp] + rest =~= ss);
    }
}

proof fn lemma_parse_elm_of_enc(data: Seq<u8>, pos: int, e: DocElmView)
    requires
        elm_supported(e),
        elm_fits(e),
        0 <= pos,
        pos + enc_elm(e).len() <= data.len(),
        data.subrange(pos, pos + enc_elm(e).len()) == enc_elm(e),
    ensures
        parse_elm_at(data, pos) == Ok::<(DocElmView, int), WireFault>(
            (e, pos + enc_elm(e).len()),
        ),
{
    match e {
        DocElmView::Header(h) => {
            assert(data[pos] == enc_elm(e)[0]);
            assert(data[pos + 1] == enc_elm(e)[1]);
            lemma_window_split(
                data,
                pos,
                seq![crate::wire::TAG_HEADER, h.level],
                enc_span(h.text),
            );
            lemma_parse_span_of_enc(data, pos + 2, h.text);
        },
        DocElmView::Paragraph(p) => {
            assert(data[pos] == enc_elm(e)[0]);
            assert(enc_elm(e) =~= seq![crate::wire::TAG_PARAGRAPH] + (enc_u64_le(
                p.text.len() as u64,
            ) + enc_spans(p.text)));
            lemma_window_split(
                data,
                pos,
                seq![crate::wire::TAG_PARAGRAPH],
                enc_u64_le(p.text.len() as u64) + enc_spans(p.text),
            );
            let p1 = pos + 1;
            lemma_window_split(data, p1, enc_u64_le(p.text.len() as u64), enc_spans(p.text));
            lemma_parse_u64_of_enc(data, p1, p.text.len() as u64);
            assert((p.text.len() as u64) as int == p.text.len() as int);
            lemma_parse_n_spans_of_enc(data, p1 + 8, p.text);
        },
        _ => {
            assert(false);
        },
    }
}

/// An encoded supported element is never empty, so parsing always advances.
proof fn lemma_enc_elm_nonempty(e: DocElmView)
    requires
        elm_supported(e),
    ensures
        enc_elm(e).len() >= 1,
{
}

proof fn lemma_parse_body_of_enc(data: Seq<u8>, pos: int, es: Seq<DocElmView>)
    requires
        elms_supported(es),
        forall|i: int| 0 <= i < es.len() ==> elm_fits(#[trigger] es[i]),
        0 <= pos,
        pos + enc_elms(es).len() <= data.len(),
        data.subrange(pos, pos + enc_elms(es).len()) == enc_elms(es),
    ensures
        parse_body(data, pos, pos + enc_elms(es).len()) == Ok::<
            (Seq<DocElmView>, int),
            WireFault,
        >((es, pos + enc_elms(es).len())),
    decreases es.len(),
{
    let end = pos + enc_elms(es).len();
    if es.len() == 0 {
        assert(es =~= Seq::<DocElmView>::empty());
    } else {
        let e = es[0];
        let rest = es.drop_first();
        lemma_window_split(data, pos, enc_elm(e), enc_elms(rest));
        lemma_parse_elm_of_enc(data, pos, e);
        lemma_enc_elm_nonempty(e);
        let p = pos + enc_elm(e).len();
        assert(forall|i: int| 0 <= i < rest.len() ==> #[trigger] rest[i] == es[i + 1]);
        lemma_parse_body_of_enc(data, p, rest);
        if rest.len() == 0 {
            assert(enc_elms(rest).len() == 0);
            assert(p == end);
            assert(seq![e] =~= es);
        } else {
            assert(enc_elms(rest).len() >= enc_elm(rest[0]).len()) by {
                lemma_window_split(data, p, enc_elm(rest[0]), enc_elms(rest.drop_first()));
            }
            lemma_enc_elm_nonempty(rest[0]);
            assert(p < end);
            assert(seq![e] + rest =~= es);
        }
    }
}

proof fn lemma_parse_n_elms_of_enc(data: Seq<u8>, pos: int, es: Seq<DocElmView>)
    requires
        fits_u64(es.len()),
        elms_supported(es),
        forall|i: int| 0 <= i < es.len() ==> elm_fits(#[trigger] es[i]),
        0 <= pos,
        pos + enc_elms(es).len() <= data.len(),
        data.subrange(pos, pos + enc_elms(es).len()) == enc_elms(es),
    ensures
        parse_n_elms(data, pos, es.len() as u64) == Ok::<(Seq<DocElmView>, int), WireFault>(
            (es, pos + enc_elms(es).len()),
        ),
    decreases es.len(),
{
    if es.len() == 0 {
        assert(es =~= Seq::<DocElmView>::empty());
    } else {
        let e = es[0];
        let rest = es.drop_first();
        lemma_window_split(data, pos, enc_elm(e), enc_elms(rest));
        lemma_parse_elm_of_enc(data, pos, e);
        let p = pos + enc_elm(e).len();
        assert(forall|i: int| 0 <= i < rest.len() ==> #[trigger] rest[i] == es[i + 1]);
        lemma_parse_n_elms_of_enc(data, p, rest);
        assert(seq![e] + rest =~= es);
    }
}

proof fn lemma_parse_footnote_of_enc(data: Seq<u8>, pos: int, f: FootnoteView)
    requires
        footnote_fits(f),
        elms_supported(f.body),
        0 <= pos,
        pos + enc_footnote(f).len() <= data.len(),
        data.subrange(pos, pos + enc_footnote(f).len()) == enc_footnote(f),
    ensures
        parse_footnote_at(data, pos) == Ok::<(FootnoteView, int), WireFault>(
            (f, pos + enc_footnote(f).len()),
        ),
{
    assert(enc_footnote(f) =~= enc_str(f.title) + (enc_u64_le(f.body.len() as u64) + enc_elms(
        f.body,
    )));
    lemma_window_split(
        data,
        pos,
        enc_str(f.title),
        enc_u64_le(f.body.len() as u64) + enc_elms(f.body),
    );
    let p1 = pos + enc_str(f.title).len();
    lemma_window_split(data, p1, enc_u64_le(f.body.len() as u64), enc_elms(f.body));
    lemma_parse_str_of_enc(data, pos, f.title);
    lemma_parse_u64_of_enc(data, p1, f.body.len() as u64);
    assert((f.body.len() as u64) as int == f.body.len() as int);
    lemma_parse_n_elms_of_enc(data, p1 + 8, f.body);
    assert(parse_footnote_at(data, pos) == Ok::<(FootnoteView, int), WireFault>(
        (FootnoteView { title: f.title, body: f.body }, pos + enc_footnote(f).len()),
    ));
}

proof fn lemma_parse_n_footnotes_of_enc(data: Seq<u8>, pos: int, fs: Seq<FootnoteView>)
    requires
        fits_u64(fs.len()),
        forall|i: int| 0 <= i < fs.len() ==> footnote_fits(#[trigger] fs[i]),
        forall|i: int| 0 <= i < fs.len() ==> elms_supported(#[trigger] fs[i].body),
        0 <= pos,
        pos + enc_footnote_list(fs).len() <= data.len(),
        data.subrange(pos, pos + enc_footnote_list(fs).len()) == enc_footnote_list(fs),
    ensures
        parse_n_footnotes(data, pos, fs.len() as u64) == Ok::<
            (Seq<FootnoteView>, int),
            WireFault,
        >((fs, pos + enc_footnote_list(fs).len())),
    decreases fs.len(),
{
    if fs.len() == 0 {
        assert(fs =~= Seq::<FootnoteView>::empty());
    } else {
        let f = fs[0];
        let rest = fs.drop_first();
        lemma_window_split(data, pos, enc_footnote(f), enc_footnote_list(rest));
        lemma_parse_footnote_of_enc(data, pos, f);
        let p = pos + enc_footnote(f).len();
        assert(forall|i: int| 0 <= i < rest.len() ==> #[trigger] rest[i] == fs[i + 1]);
        lemma_parse_n_footnotes_of_enc(data, p, rest);
        assert(seq![f] + rest =~= fs);
    }
}

// ---------------------------------------------------------------------------
// The round-trip theorem
// ---------------------------------------------------------------------------

/// What the decoder reports as the footnotes of a document that was encoded
/// with footnotes `fo`: the wire format stores only a count, so an empty
/// collection comes back absent.
pub open spec fn normalize_footnotes(fo: Option<Seq<FootnoteView>>) -> Option<
    Seq<FootnoteView>,
> {
    match fo {
        None => None,
        Some(fs) => if fs.len() == 0 {
            None
        } else {
            Some(fs)
        },
    }
}

/// Decoding the container built from any supported document yields exactly
/// that document's body and (normalized) footnotes, with the checksum the
/// encoder stored.
/// Where each field of the container sits: the fixed header fields, then the
/// body bytes, then the footnote bytes.
#[verifier::rlimit(100)]
#[verifier::spinoff_prover]
proof fn lemma_container_layout(body: Seq<DocElmView>, fo: Option<Seq<FootnoteView>>)
    ensures
        ({
            let bb = enc_elms(body);
            let fb = enc_footnotes(fo);
            let crc = crc32_of(bb + fb);
            let data = container_bytes(body, fo);
            let fo_off = HEADER_SIZE as int + bb.len();
            &&& data.len() == HEADER_SIZE as int + bb.len() + fb.len()
            &&& data[0] == MAGIC_0
            &&& data[1] == MAGIC_1
            &&& data[2] == MAGIC_2
            &&& data[3] == MAGIC_3
            &&& data.subrange(4, 8) == enc_u32_le(crc)
            &&& data[8] == FORMAT_VERSION
            &&& data.subrange(9, 13) == enc_u32_le(HEADER_SIZE as u32)
            &&& data.subrange(13, 17) == enc_u32_le((HEADER_SIZE as int + bb.len()) as u32)
            &&& data.subrange(HEADER_SIZE as int, fo_off) == bb
            &&& data.subrange(fo_off, data.len() as int) == fb
        }),
{
    let bb = enc_elms(body);
    let fb = enc_footnotes(fo);
    let crc = crc32_of(bb + fb);
    let data = container_bytes(body, fo);
    let hs = HEADER_SIZE as int;

    let seg_magic = spec_magic();
    let seg_crc = enc_u32_le(crc);
    let seg_ver = seq![FORMAT_VERSION];
    let seg_bo = enc_u32_le(HEADER_SIZE as u32);
    let seg_fo = enc_u32_le((hs + bb.len()) as u32);
    let seg_res = spec_reserved();

    assert(data =~= seg_magic + (seg_crc + (seg_ver + (seg_bo + (seg_fo + (seg_res + (bb
        + fb)))))));
    assert(data.subrange(0, data.len() as int) =~= data);
    lemma_window_split(
        data,
        0,
        seg_magic,
        seg_crc + (seg_ver + (seg_bo + (seg_fo + (seg_res + (bb + fb))))),
    );
    lemma_window_split(data, 4, seg_crc, seg_ver + (seg_bo + (seg_fo + (seg_res + (bb + fb)))));
    lemma_window_split(data, 8, seg_ver, seg_bo + (seg_fo + (seg_res + (bb + fb))));
    lemma_window_split(data, 9, seg_bo, seg_fo + (seg_res + (bb + fb)));
    lemma_window_split(data, 13, seg_fo, seg_res + (bb + fb));
    lemma_window_split(data, 17, seg_res, bb + fb);
    lemma_window_split(data, 37, bb, fb);

    assert(data.subrange(0, 4)[0] == data[0]);
    assert(data.subrange(0, 4)[1] == data[1]);
    assert(data.subrange(0, 4)[2] == data[2]);
    assert(data.subrange(0, 4)[3] == data[3]);
    assert(data.subrange(8, 9)[0] == data[8]);
}

/// Decoding any buffer laid out as a container for the document yields the
/// document back.  Stated over an abstract buffer so that the container
/// expression itself never has to be unfolded here.
#[verifier::rlimit(100)]
#[verifier::spinoff_prover]
proof fn lemma_deserialize_of_layout(
    data: Seq<u8>,
    body: Seq<DocElmView>,
    fo: Option<Seq<FootnoteView>>,
)
    requires
        doc_supported(body, fo),
        doc_fits(body, fo),
        container_fits(body),
        data.len() == HEADER_SIZE as int + enc_elms(body).len() + enc_footnotes(fo).len(),
        data[0] == MAGIC_0,
        data[1] == MAGIC_1,
        data[2] == MAGIC_2,
        data[3] == MAGIC_3,
        data.subrange(4, 8) == enc_u32_le(crc32_of(enc_elms(body) + enc_footnotes(fo))),
        data[8] == FORMAT_VERSION,
        data.subrange(9, 13) == enc_u32_le(HEADER_SIZE as u32),
        data.subrange(13, 17) == enc_u32_le((HEADER_SIZE as int + enc_elms(body).len()) as u32),
        data.subrange(HEADER_SIZE as int, HEADER_SIZE as int + enc_elms(body).len()) == enc_elms(
            body,
        ),
        data.subrange(HEADER_SIZE as int + enc_elms(body).len(), data.len() as int)
            == enc_footnotes(fo),
    ensures
        spec_deserialize(data) == Ok::<DecodedView, FracFormatErrorView>(
            DecodedView {
                body,
                footnotes: normalize_footnotes(fo),
                checksum: crc32_of(enc_elms(body) + enc_footnotes(fo)),
            },
        ),
{
    let bb = enc_elms(body);
    let fb = enc_footnotes(fo);
    let crc = crc32_of(bb + fb);
    let hs = HEADER_SIZE as int;
    let fo_off = hs + bb.len();

    lemma_parse_u32_of_enc(data, 4, crc);
    lemma_parse_u32_of_enc(data, 9, HEADER_SIZE as u32);
    lemma_parse_u32_of_enc(data, 13, (hs + bb.len()) as u32);
    assert((HEADER_SIZE as u32) as int == hs);
    assert(((hs + bb.len()) as u32) as int == fo_off);

    lemma_parse_body_of_enc(data, hs, body);
    assert(parse_body(data, hs, fo_off) == Ok::<(Seq<DocElmView>, int), WireFault>(
        (body, fo_off),
    ));

    match fo {
        None => {
            assert(fb == enc_u64_le(0));
            assert(data.subrange(fo_off, fo_off + 8) =~= fb);
            lemma_parse_u64_of_enc(data, fo_off, 0);
            assert(parse_n_footnotes(data, fo_off + 8, 0) == Ok::<
                (Seq<FootnoteView>, int),
                WireFault,
            >((Seq::<FootnoteView>::empty(), fo_off + 8)));
        },
        Some(fs) => {
            assert(fb == enc_u64_le(fs.len() as u64) + enc_footnote_list(fs));
            lemma_window_split(
                data,
                fo_off,
                enc_u64_le(fs.len() as u64),
                enc_footnote_list(fs),
            );
            lemma_parse_u64_of_enc(data, fo_off, fs.len() as u64);
            lemma_parse_n_footnotes_of_enc(data, fo_off + 8, fs);
            assert((fs.len() as u64) as int == fs.len() as int);
        },
    }
    assert(data.subrange(hs, fo_off) + data.subrange(fo_off, data.len() as int) == bb + fb);
    assert(spec_deserialize(data) == Ok::<DecodedView, FracFormatErrorView>(
        DecodedView { body, footnotes: normalize_footnotes(fo), checksum: crc },
    ));
}

/// Decoding the container built from any supported document yields exactly
/// that document's body and (normalized) footnotes, with the checksum the
/// encoder stored.
#[verifier::spinoff_prover]
pub proof fn lemma_container_roundtrip(body: Seq<DocElmView>, fo: Option<Seq<FootnoteView>>)
    requires
        doc_supported(body, fo),
        doc_fits(body, fo),
        container_fits(body),
    ensures
        ({
            let data = container_bytes(body, fo);
            spec_deserialize(data) == Ok::<DecodedView, FracFormatErrorView>(
                DecodedView {
                    body,
                    footnotes: normalize_footnotes(fo),
                    checksum: crc32_of(enc_elms(body) + enc_footnotes(fo)),
                },
            )
        }),
{
    lemma_container_layout(body, fo);
    lemma_deserialize_of_layout(container_bytes(body, fo), body, fo);
}

// ---------------------------------------------------------------------------
// The laws
// ---------------------------------------------------------------------------

/// Round-trip identity: encoding any document built only from supported
/// elements (headers and paragraphs, with arbitrary spans, styles and
/// footnotes) succeeds, and decoding the result yields exactly the same body
/// and the same footnotes.  The size hypotheses only ask that counts and
/// byte lengths fit the fixed-width length and offset fields, which holds of
/// any document an encoder is actually handed.  An explicitly present but
/// empty footnote list is the one exception to the identity: the wire format
/// cannot represent it, so it is left out here and treated by
/// `lemma_footnote_absence`.
pub proof fn lemma_roundtrip_identity(body: Seq<DocElmView>, fo: Option<Seq<FootnoteView>>)
    requires
        doc_supported(body, fo),
        doc_fits(body, fo),
        container_fits(body),
        fo matches Some(fs) ==> fs.len() > 0,
    ensures
        spec_serialize(body, fo) matches Ok(data) && spec_deserialize(data) matches Ok(d)
            && d.body == body && d.footnotes == fo,
{
    lemma_find_unsupported_elm_none(body);
    match fo {
        Some(fs) => {
            lemma_find_unsupported_footnote_none(fs);
        },
        None => {},
    }
    assert(find_unsupported(body, fo) is None);
    lemma_container_roundtrip(body, fo);
}

/// Rejection of unsupported elements: encoding a document that holds an
/// Image, Table, CodeBlock, List, Citation or Break element, in its body or
/// in a footnote, always fails with an `UnsupportedFeature` error.
pub proof fn lemma_unsupported_rejected(body: Seq<DocElmView>, fo: Option<Seq<FootnoteView>>)
    requires
        !doc_supported(body, fo),
    ensures
        spec_serialize(body, fo) matches Err(e) && e is UnsupportedFeature,
{
    lemma_find_unsupported_elm_none(body);
    match fo {
        Some(fs) => {
            lemma_find_unsupported_footnote_none(fs);
        },
        None => {},
    }
}

/// Footnote absence convention: a document with no footnotes and one with an
/// explicitly empty footnote list encode to the same container bytes, and
/// that container decodes to an absent footnotes collection.
pub proof fn lemma_footnote_absence(body: Seq<DocElmView>)
    requires
        doc_supported(body, None),
        doc_fits(body, None),
        container_fits(body),
    ensures
        spec_serialize(body, Some(Seq::<FootnoteView>::empty())) == spec_serialize(body, None),
        spec_serialize(body, None) matches Ok(data) && spec_deserialize(data) matches Ok(d)
            && d.body == body && d.footnotes is None,
{
    let empty = Seq::<FootnoteView>::empty();
    assert(enc_footnote_list(empty) =~= Seq::<u8>::empty());
    assert(enc_footnotes(Some(empty)) =~= enc_footnotes(None));
    assert(container_bytes(body, Some(empty)) == container_bytes(body, None));
    lemma_find_unsupported_elm_none(body);
    lemma_find_unsupported_footnote_none(empty);
    assert(find_unsupported(body, Some(empty)) is None);
    assert(find_unsupported(body, None) is None);
    lemma_container_roundtrip(body, None);
}

/// Header validation: a container whose first four bytes are not the magic
/// literal is rejected with an `InvalidHeader` error.
pub proof fn lemma_invalid_magic_rejected(data: Seq<u8>)
    requires
        data.len() >= 4,
        !(data[0] == MAGIC_0 && data[1] == MAGIC_1 && data[2] == MAGIC_2 && data[3] == MAGIC_3),
    ensures
        spec_deserialize(data) == Err::<DecodedView, FracFormatErrorView>(
            FracFormatErrorView::InvalidHeader("Invalid magic bytes"@),
        ),
{
}

/// Header validation: a container with a version byte other than the format
/// version is rejected with an `InvalidHeader` error naming the found
/// version.
pub proof fn lemma_unsupported_version_rejected(data: Seq<u8>)
    requires
        data.len() >= 9,
        data[0] == MAGIC_0 && data[1] == MAGIC_1 && data[2] == MAGIC_2 && data[3] == MAGIC_3,
        data[8] != FORMAT_VERSION,
    ensures
        spec_deserialize(data) == Err::<DecodedView, FracFormatErrorView>(
            FracFormatErrorView::InvalidHeader(
                "Unsupported version: "@ + dec_digits(data[8] as nat),
            ),
        ),
{
}

/// Checksum verification: whenever the stored checksum differs from the
/// CRC-32 of the body and footnote regions the offsets delimit, decoding
/// fails with an `InvalidData` error, and parsing of those regions never
/// begins.  (That any single flipped byte in those regions changes the
/// CRC-32 is a property of the checksum itself, outside this model; the test
/// suite exercises it byte by byte.)
pub proof fn lemma_checksum_mismatch_rejected(data: Seq<u8>)
    requires
        data.len() >= 17,
        data[0] == MAGIC_0 && data[1] == MAGIC_1 && data[2] == MAGIC_2 && data[3] == MAGIC_3,
        data[8] == FORMAT_VERSION,
        ({
            let bo = le_u32(data[9], data[10], data[11], data[12]) as int;
            let fo = le_u32(data[13], data[14], data[15], data[16]) as int;
            bo <= fo <= data.len()
        }),
    ensures
        ({
            let bo = le_u32(data[9], data[10], data[11], data[12]) as int;
            let fo = le_u32(data[13], data[14], data[15], data[16]) as int;
            le_u32(data[4], data[5], data[6], data[7]) != crc32_of(
                data.subrange(bo, fo) + data.subrange(fo, data.len() as int),
            ) ==> spec_deserialize(data) == Err::<DecodedView, FracFormatErrorView>(
                FracFormatErrorView::InvalidData("Checksum mismatch"@),
            )
        }),
{
}

} // verus!
