use fractal::{
    deserialize_ir, serialize_ir, DocElm, Footnote, IntermediateRep, Paragraph, Span, Style,
};

fn build_ir_footnotes(body: Vec<DocElm>, footnotes: Option<Vec<Footnote>>) -> IntermediateRep {
    let count = body.len();
    IntermediateRep {
        size: 0,
        body,
        count,
        last_modified: Some(1_678_886_400),
        author: Some("Test Author".to_string()),
        title: "Test Document".to_string(),
        checksum: None,
        tags: Some(vec!["test".to_string(), "example".to_string()]),
        footnotes,
    }
}

fn assert_roundtrip_footnotes(ir: IntermediateRep) {
    let bytes = serialize_ir(&ir).expect("Serialization failed");
    let deserialized = deserialize_ir(&bytes).expect("Deserialization failed");
    assert_eq!(ir.body, deserialized.body);
    assert_eq!(ir.footnotes, deserialized.footnotes);
}

#[test]
fn footnotes_roundtrip_styles_and_annotations_roundtrip() {
    let paragraph = Paragraph {
        text: vec![
            Span {
                text: "Task: ".to_string(),
                styles: vec![Style::Bold],
                ..Span::new()
            },
            Span {
                text: "Write serializer".to_string(),
                checkbox: Some(false),
                ..Span::new()
            },
            Span {
                text: " (see note)".to_string(),
                styles: vec![Style::Italic],
                footnote: Some("note-1".to_string()),
                ..Span::new()
            },
        ],
    };

    let footnotes = vec![Footnote {
        title: "note-1".to_string(),
        body: vec![DocElm::Paragraph(Paragraph {
            text: vec![Span {
                text: "Remember to test checkboxes too.".to_string(),
                ..Span::new()
            }],
        })],
    }];

    assert_roundtrip_footnotes(build_ir_footnotes(
        vec![DocElm::Paragraph(paragraph)],
        Some(footnotes),
    ));
}

#[test]
fn footnotes_roundtrip_multiple_footnotes_roundtrip() {
    let body = vec![DocElm::Paragraph(Paragraph {
        text: vec![Span { text: "Two notes follow".to_string(), ..Span::new() }],
    })];

    let footnotes = vec![
        Footnote {
            title: "note-a".to_string(),
            body: vec![DocElm::Paragraph(Paragraph {
                text: vec![Span { text: "First note".to_string(), ..Span::new() }],
            })],
        },
        Footnote {
            title: "note-b".to_string(),
            body: vec![DocElm::Paragraph(Paragraph {
                text: vec![Span { text: "Second note".to_string(), ..Span::new() }],
            })],
        },
    ];

    assert_roundtrip_footnotes(build_ir_footnotes(body, Some(footnotes)));
}
