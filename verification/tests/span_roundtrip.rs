use fractal::{
    deserialize_ir, serialize_ir, DocElm, Footnote, FracFormatError, Header, Image,
    IntermediateRep, Paragraph, Span, Style,
};

fn build_ir_span(body: Vec<DocElm>, footnotes: Option<Vec<Footnote>>) -> IntermediateRep {
    let count = body.len();
    IntermediateRep {
        size: 0,
        body,
        count,
        last_modified: Some(1_678_886_400),
        author: Some("Test Author".to_string()),
        title: "Test Document".to_string(),
        checksum: None,
        tags: Some(vec!["test".to_string(), "example".to_string()]),
        footnotes,
    }
}

fn assert_roundtrip_span(ir: IntermediateRep) {
    let bytes = serialize_ir(&ir).expect("Serialization failed");
    let deserialized = deserialize_ir(&bytes).expect("Deserialization failed");
    assert_eq!(ir.body, deserialized.body);
    assert_eq!(ir.footnotes, deserialized.footnotes);
}

#[test]
fn span_roundtrip_test_serialization_roundtrip() {
    let original_ir = IntermediateRep {
        size: 0,
        body: vec![
            DocElm::Header(Header {
                level: 1,
                text: Span { text: "This is a Header".to_string(), ..Span::new() },
            }),
            DocElm::Paragraph(Paragraph {
                text: vec![
                    Span { text: "This is a simple paragraph.".to_string(), ..Span::new() },
                    Span { text: " With a second span.".to_string(), ..Span::new() },
                ],
            }),
            DocElm::Paragraph(Paragraph {
                text: vec![
                    Span { text: "This is a simple paragraph.".to_string(), ..Span::new() },
                    Span { text: "This is ".to_string(), ..Span::new() },
                    Span {
                        text: "bold ".to_string(),
                        styles: vec![Style::Bold],
                        ..Span::new()
                    },
                    Span { text: "and ".to_string(), ..Span::new() },
                    Span {
                        text: "italic".to_string(),
                        styles: vec![Style::Italic],
                        ..Span::new()
                    },
                    Span { text: "and ".to_string(), ..Span::new() },
                    Span {
                        text: "both".to_string(),
                        styles: vec![Style::Bold, Style::Italic],
                        ..Span::new()
                    },
                ],
            }),
        ],
        count: 2,
        last_modified: Some(1678886400),
        author: Some("Gemini".to_string()),
        title: "Test Document".to_string(),
        checksum: None,
        tags: Some(vec!["test".to_string(), "example".to_string()]),
        footnotes: None,
    };

    let bytes = serialize_ir(&original_ir).expect("Serialization failed");
    let deserialized_ir = deserialize_ir(&bytes).expect("Deserialization failed");

    assert_eq!(original_ir.body, deserialized_ir.body);
    assert_eq!(original_ir.footnotes, deserialized_ir.footnotes);
}

#[test]
fn span_roundtrip_link_and_highlight_styles_roundtrip() {
    let paragraph = Paragraph {
        text: vec![
            Span { text: "Docs available at ".to_string(), ..Span::new() },
            Span {
                text: "example".to_string(),
                styles: vec![Style::Link { href: "https://example.com/docs".to_string() }],
                ..Span::new()
            },
            Span {
                text: " and pay attention".to_string(),
                styles: vec![Style::Highlight],
                ..Span::new()
            },
        ],
    };

    assert_roundtrip_span(build_ir_span(vec![DocElm::Paragraph(paragraph)], None));
}

#[test]
fn span_roundtrip_unsupported_doc_elm_fails_serialization() {
    let ir = build_ir_span(
        vec![DocElm::Image(Image {
            title: "diagram".to_string(),
            source: "diagram.png".to_string(),
            decription: "not yet supported".to_string(),
        })],
        None,
    );

    let err = serialize_ir(&ir).expect_err("Image serialization should be rejected");
    assert!(matches!(err, FracFormatError::UnsupportedFeature(_)));
}
