use fractal::{
    deserialize_ir, serialize_ir, Citation, CodeBlock, DocElm, Footnote, FracFormatError, Header,
    Image, IntermediateRep, List, Paragraph, Span, Style, Table,
};

fn doc(body: Vec<DocElm>, footnotes: Option<Vec<Footnote>>) -> IntermediateRep {
    let count = body.len();
    IntermediateRep {
        size: 0,
        body,
        count,
        last_modified: None,
        author: None,
        title: "doc".to_string(),
        checksum: None,
        tags: None,
        footnotes,
    }
}

fn sample_doc() -> IntermediateRep {
    doc(
        vec![
            DocElm::Header(Header {
                level: 3,
                text: Span { text: "Heading".to_string(), ..Span::new() },
            }),
            DocElm::Paragraph(Paragraph {
                text: vec![Span {
                    text: "Body text".to_string(),
                    styles: vec![Style::Code, Style::Link { href: "x://y".to_string() }],
                    footnote: Some("n".to_string()),
                    checkbox: Some(true),
                    ..Span::new()
                }],
            }),
        ],
        Some(vec![Footnote {
            title: "n".to_string(),
            body: vec![DocElm::Paragraph(Paragraph {
                text: vec![Span { text: "note".to_string(), ..Span::new() }],
            })],
        }]),
    )
}

/// Builds a container by hand around the given body and footnote regions,
/// with a correct checksum.
fn make_container(body: &[u8], footnotes: &[u8]) -> Vec<u8> {
    let mut hasher = crc32fast::Hasher::new();
    hasher.update(body);
    hasher.update(footnotes);
    let crc = hasher.finalize();
    let mut v = Vec::new();
    v.extend_from_slice(b"FRAC");
    v.extend_from_slice(&crc.to_le_bytes());
    v.push(1);
    v.extend_from_slice(&37u32.to_le_bytes());
    v.extend_from_slice(&((37 + body.len()) as u32).to_le_bytes());
    v.extend_from_slice(&[0u8; 20]);
    v.extend_from_slice(body);
    v.extend_from_slice(footnotes);
    v
}

#[test]
fn empty_document_container_layout() {
    let bytes = serialize_ir(&doc(vec![], None)).expect("encoding an empty document");
    assert_eq!(bytes.len(), 45);
    assert_eq!(&bytes[0..4], b"FRAC");
    let crc = crc32fast::hash(&bytes[37..]);
    assert_eq!(&bytes[4..8], &crc.to_le_bytes());
    assert_eq!(bytes[8], 1);
    assert_eq!(&bytes[9..13], &37u32.to_le_bytes());
    assert_eq!(&bytes[13..17], &37u32.to_le_bytes());
    assert!(bytes[17..37].iter().all(|&b| b == 0));
    assert_eq!(&bytes[37..45], &0u64.to_le_bytes());
}

#[test]
fn decoded_metadata_is_empty_except_size_and_checksum() {
    let bytes = serialize_ir(&sample_doc()).expect("encoding");
    let crc = crc32fast::hash(&bytes[37..]);
    let ir = deserialize_ir(&bytes).expect("decoding");
    assert_eq!(ir.size, bytes.len() as u64);
    assert_eq!(ir.count, 0);
    assert_eq!(ir.title, "");
    assert_eq!(ir.author, None);
    assert_eq!(ir.last_modified, None);
    assert_eq!(ir.tags, None);
    assert_eq!(ir.checksum, Some(format!("{:x}", crc)));
}

#[test]
fn flipping_any_body_or_footnote_byte_fails_checksum() {
    let bytes = serialize_ir(&sample_doc()).expect("encoding");
    assert!(bytes.len() > 37);
    for i in 37..bytes.len() {
        let mut corrupted = bytes.clone();
        corrupted[i] ^= 0x01;
        let err = deserialize_ir(&corrupted)
            .expect_err("a flipped byte must not decode");
        match err {
            FracFormatError::InvalidData(m) => assert_eq!(m, "Checksum mismatch"),
            other => panic!("expected InvalidData at byte {}, got {:?}", i, other),
        }
    }
}

#[test]
fn wrong_magic_is_rejected() {
    let mut bytes = serialize_ir(&sample_doc()).expect("encoding");
    bytes[0] = b'X';
    let err = deserialize_ir(&bytes).expect_err("bad magic must not decode");
    match err {
        FracFormatError::InvalidHeader(m) => assert_eq!(m, "Invalid magic bytes"),
        other => panic!("expected InvalidHeader, got {:?}", other),
    }
}

#[test]
fn wrong_version_is_rejected_naming_the_version() {
    let mut bytes = serialize_ir(&sample_doc()).expect("encoding");
    bytes[8] = 2;
    let err = deserialize_ir(&bytes).expect_err("bad version must not decode");
    match err {
        FracFormatError::InvalidHeader(m) => assert_eq!(m, "Unsupported version: 2"),
        other => panic!("expected InvalidHeader, got {:?}", other),
    }
    let mut bytes255 = serialize_ir(&sample_doc()).expect("encoding");
    bytes255[8] = 255;
    match deserialize_ir(&bytes255).expect_err("bad version must not decode") {
        FracFormatError::InvalidHeader(m) => assert_eq!(m, "Unsupported version: 255"),
        other => panic!("expected InvalidHeader, got {:?}", other),
    }
}

#[test]
fn inconsistent_offsets_are_rejected() {
    let mut bytes = serialize_ir(&sample_doc()).expect("encoding");
    let huge = (bytes.len() as u32 + 100).to_le_bytes();
    bytes[13..17].copy_from_slice(&huge);
    let err = deserialize_ir(&bytes).expect_err("offsets past the end must not decode");
    assert!(matches!(err, FracFormatError::InvalidHeader(_)));
}

#[test]
fn unknown_element_tag_is_rejected_naming_the_byte() {
    let body = [42u8];
    let bytes = make_container(&body, &0u64.to_le_bytes());
    let err = deserialize_ir(&bytes).expect_err("unknown tag must not decode");
    match err {
        FracFormatError::InvalidData(m) => assert_eq!(m, "Unknown DocElm tag: 42"),
        other => panic!("expected InvalidData, got {:?}", other),
    }
}

#[test]
fn unknown_style_tag_is_rejected_naming_the_byte() {
    let mut body = vec![1u8, 1u8];
    body.extend_from_slice(&0u64.to_le_bytes());
    body.extend_from_slice(&1u64.to_le_bytes());
    body.push(9);
    let bytes = make_container(&body, &0u64.to_le_bytes());
    let err = deserialize_ir(&bytes).expect_err("unknown style tag must not decode");
    match err {
        FracFormatError::InvalidData(m) => assert_eq!(m, "Unknown style tag 9"),
        other => panic!("expected InvalidData, got {:?}", other),
    }
}

#[test]
fn invalid_utf8_in_string_is_rejected() {
    let mut body = vec![1u8, 1u8];
    body.extend_from_slice(&1u64.to_le_bytes());
    body.push(0xff);
    let bytes = make_container(&body, &0u64.to_le_bytes());
    let err = deserialize_ir(&bytes).expect_err("invalid utf-8 must not decode");
    match err {
        FracFormatError::InvalidData(m) => assert_eq!(m, "invalid utf-8 in string"),
        other => panic!("expected InvalidData, got {:?}", other),
    }
}

#[test]
fn truncated_buffers_are_io_errors() {
    let err = deserialize_ir(&[]).expect_err("an empty buffer must not decode");
    assert!(matches!(err, FracFormatError::Io(_)));

    let err = deserialize_ir(b"FRA").expect_err("three bytes must not decode");
    assert!(matches!(err, FracFormatError::Io(_)));

    let err = deserialize_ir(b"FRAC").expect_err("only a magic must not decode");
    assert!(matches!(err, FracFormatError::Io(_)));

    let mut body = vec![1u8, 1u8];
    body.extend_from_slice(&100u64.to_le_bytes());
    let bytes = make_container(&body, &0u64.to_le_bytes());
    let err = deserialize_ir(&bytes).expect_err("a string past the end must not decode");
    assert!(matches!(err, FracFormatError::Io(_)));
}

#[test]
fn absent_and_empty_footnotes_encode_alike_and_decode_absent() {
    let with_none = serialize_ir(&doc(
        vec![DocElm::Paragraph(Paragraph {
            text: vec![Span { text: "p".to_string(), ..Span::new() }],
        })],
        None,
    ))
    .expect("encoding");
    let with_empty = serialize_ir(&doc(
        vec![DocElm::Paragraph(Paragraph {
            text: vec![Span { text: "p".to_string(), ..Span::new() }],
        })],
        Some(vec![]),
    ))
    .expect("encoding");
    assert_eq!(with_none, with_empty);
    assert_eq!(deserialize_ir(&with_none).expect("decoding").footnotes, None);
    assert_eq!(deserialize_ir(&with_empty).expect("decoding").footnotes, None);
}

#[test]
fn every_unsupported_variant_is_rejected() {
    let unsupported: Vec<(DocElm, &str)> = vec![
        (
            DocElm::Citation(Citation { text: vec![], src: None, date: None }),
            "Citation elements are not yet supported",
        ),
        (
            DocElm::List(List { items: vec![], checkboxes: None }),
            "List elements are not yet supported",
        ),
        (
            DocElm::Image(Image {
                title: String::new(),
                source: String::new(),
                decription: String::new(),
            }),
            "Image elements are not yet supported",
        ),
        (
            DocElm::CodeBlock(CodeBlock { language: None, code: String::new() }),
            "CodeBlock elements are not yet supported",
        ),
        (
            DocElm::Table(Table { title: String::new(), headers: vec![], rows: vec![] }),
            "Table elements are not yet supported",
        ),
        (DocElm::Break, "Break elements are not yet supported"),
    ];
    for (elm, expected) in unsupported {
        let err = serialize_ir(&doc(vec![elm], None))
            .expect_err("unsupported elements must not encode");
        match err {
            FracFormatError::UnsupportedFeature(m) => assert_eq!(m, expected),
            other => panic!("expected UnsupportedFeature, got {:?}", other),
        }
    }
}

#[test]
fn unsupported_element_inside_footnote_is_rejected() {
    let ir = doc(
        vec![],
        Some(vec![Footnote { title: "t".to_string(), body: vec![DocElm::Break] }]),
    );
    let err = serialize_ir(&ir).expect_err("unsupported footnote bodies must not encode");
    assert!(matches!(err, FracFormatError::UnsupportedFeature(_)));
}

#[test]
fn error_messages_carry_their_kind() {
    let e = FracFormatError::InvalidData("x".to_string());
    assert_eq!(e.message(), "Invalid data for format: x");
    let e = FracFormatError::Io("y".to_string());
    assert_eq!(e.message(), "Serialization I/O error: y");
    let e = FracFormatError::MissingField("f".to_string());
    assert_eq!(e.message(), "Required field is missing: f");
    let e = FracFormatError::InvalidHeader("h".to_string());
    assert_eq!(e.message(), "Invalid Header: h");
    let e = FracFormatError::UnsupportedFeature("u".to_string());
    assert_eq!(e.message(), "Unsupported feature: u");
}

#[test]
fn style_order_is_preserved_exactly() {
    let spans = vec![Span {
        text: "s".to_string(),
        styles: vec![
            Style::Highlight,
            Style::Bold,
            Style::Strikethrough,
            Style::Italic,
            Style::Code,
            Style::Link { href: "https://example.com/docs".to_string() },
        ],
        ..Span::new()
    }];
    let ir = doc(vec![DocElm::Paragraph(Paragraph { text: spans })], None);
    let bytes = serialize_ir(&ir).expect("encoding");
    let back = deserialize_ir(&bytes).expect("decoding");
    assert_eq!(back.body, ir.body);
}

#[test]
fn non_ascii_text_roundtrips() {
    let ir = doc(
        vec![
            DocElm::Header(Header {
                level: 1,
                text: Span { text: "Prólogo — 序章".to_string(), ..Span::new() },
            }),
            DocElm::Paragraph(Paragraph {
                text: vec![Span {
                    text: "naïve ünïcödé ♥ 𝄞".to_string(),
                    styles: vec![Style::Link { href: "https://exämple.test/päth".to_string() }],
                    footnote: Some("nöté".to_string()),
                    ..Span::new()
                }],
            }),
        ],
        Some(vec![Footnote {
            title: "nöté".to_string(),
            body: vec![DocElm::Paragraph(Paragraph {
                text: vec![Span { text: "côntenu 中文".to_string(), ..Span::new() }],
            })],
        }]),
    );
    let bytes = serialize_ir(&ir).expect("encoding");
    let back = deserialize_ir(&bytes).expect("decoding");
    assert_eq!(back.body, ir.body);
    assert_eq!(back.footnotes, ir.footnotes);
}
