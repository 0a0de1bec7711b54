use fractal::parse_mark::{parse_chunk, span_parse};
use fractal::{DocElm, Span, Style};

#[test]
fn test_parse_paragraph_nested_styling_italic_bold() {
    let input = "__This italic text includes a **bold** word";
    let chars: Vec<char> = input.chars().collect();
    let (paragraph, _) = span_parse(&chars, 0, None);

    for span in paragraph {
        println!("{:?}, {:?}", span.text, span.styles);
    }
}

#[test]
fn span_parse_toggles_italic() {
    let chars: Vec<char> = "__it__ plain".chars().collect();
    let (spans, end) = span_parse(&chars, 0, None);
    assert_eq!(end, chars.len());
    assert_eq!(
        spans,
        vec![
            Span { text: "it".to_string(), styles: vec![Style::Italic], ..Span::new() },
            Span { text: " plain".to_string(), ..Span::new() },
        ]
    );
}

#[test]
fn span_parse_nested_bold_italic() {
    let chars: Vec<char> = "**__x__**".chars().collect();
    let (spans, _) = span_parse(&chars, 0, None);
    assert_eq!(
        spans,
        vec![Span {
            text: "x".to_string(),
            styles: vec![Style::Bold, Style::Italic],
            ..Span::new()
        }]
    );
}

#[test]
fn span_parse_single_markers_are_literal() {
    let chars: Vec<char> = "a_b*c".chars().collect();
    let (spans, _) = span_parse(&chars, 0, None);
    assert_eq!(spans, vec![Span { text: "a_b*c".to_string(), ..Span::new() }]);
}

#[test]
fn span_parse_trailing_marker_is_dropped() {
    let chars: Vec<char> = "ab_".chars().collect();
    let (spans, end) = span_parse(&chars, 0, None);
    assert_eq!(end, chars.len());
    assert_eq!(spans, vec![Span { text: "ab".to_string(), ..Span::new() }]);
}

#[test]
fn span_parse_stops_at_newline() {
    let chars: Vec<char> = "first\nsecond".chars().collect();
    let (spans, end) = span_parse(&chars, 0, None);
    assert_eq!(spans, vec![Span { text: "first".to_string(), ..Span::new() }]);
    assert_eq!(end, 5);
    assert_eq!(chars[end], '\n');
}

#[test]
fn span_parse_initial_styles_carry_over() {
    let chars: Vec<char> = "quoted".chars().collect();
    let (spans, _) = span_parse(&chars, 0, Some(vec![Style::Italic]));
    assert_eq!(
        spans,
        vec![Span { text: "quoted".to_string(), styles: vec![Style::Italic], ..Span::new() }]
    );
}

#[test]
fn parse_chunk_header_line() {
    let elements = parse_chunk("## Title here\n").expect("tokenizing never fails");
    assert_eq!(elements.len(), 1);
    match &elements[0] {
        DocElm::Header(h) => {
            assert_eq!(h.level, 2);
            assert_eq!(h.text.text, "Title here");
            assert!(h.text.styles.is_empty());
        }
        other => panic!("expected a header, got {:?}", other),
    }
}

#[test]
fn parse_chunk_citation_line() {
    let elements = parse_chunk(">a quote").expect("tokenizing never fails");
    assert_eq!(elements.len(), 1);
    match &elements[0] {
        DocElm::Citation(c) => {
            assert_eq!(
                c.text,
                vec![Span {
                    text: "a quote".to_string(),
                    styles: vec![Style::Italic],
                    ..Span::new()
                }]
            );
            assert_eq!(c.src, None);
            assert_eq!(c.date, None);
        }
        other => panic!("expected a citation, got {:?}", other),
    }
}

#[test]
fn parse_chunk_empty_input() {
    let elements = parse_chunk("").expect("tokenizing never fails");
    assert_eq!(elements.len(), 0);
}

#[test]
fn parse_chunk_header_trims_whitespace() {
    let elements = parse_chunk("#\t Padded \t\n").expect("tokenizing never fails");
    assert_eq!(elements.len(), 1);
    match &elements[0] {
        DocElm::Header(h) => {
            assert_eq!(h.level, 1);
            assert_eq!(h.text.text, "Padded");
        }
        other => panic!("expected a header, got {:?}", other),
    }
}
