use fractal::{Citation, FractalProject, Header, Meta, Paragraph, Settings, Span, Style};

#[test]
fn header_new_push_append() {
    let mut h = Header::new();
    assert_eq!(h.level, 1);
    assert_eq!(h.text, Span::new());
    h.push('a');
    assert_eq!(h.text.text, "a");
    h.append("bc".to_string());
    assert_eq!(h.text.text, "abc");
    assert_eq!(h.level, 1);
}

#[test]
fn span_new_push_append() {
    let mut s = Span::new();
    assert_eq!(s.text, "");
    assert!(s.styles.is_empty());
    assert_eq!(s.footnote, None);
    assert_eq!(s.checkbox, None);
    s.push('x');
    s.append("yz".to_string());
    assert_eq!(s.text, "xyz");
    assert!(s.styles.is_empty());
}

#[test]
fn paragraph_new_is_empty() {
    let p = Paragraph::new();
    assert!(p.text.is_empty());
}

#[test]
fn citation_new_is_empty() {
    let c = Citation::new();
    assert!(c.text.is_empty());
    assert_eq!(c.src, None);
    assert_eq!(c.date, None);
}

#[test]
fn style_equality_is_structural() {
    assert_eq!(Style::Link { href: "a".to_string() }, Style::Link { href: "a".to_string() });
    assert_ne!(Style::Link { href: "a".to_string() }, Style::Link { href: "b".to_string() });
    assert_ne!(Style::Bold, Style::Italic);
}

#[test]
fn project_metadata_holds_its_fields() {
    let project = FractalProject {
        meta: Meta {
            author: "someone".to_string(),
            title: "a project".to_string(),
            tags: vec!["docs".to_string()],
            creation_date: Some(1),
            last_change_date: None,
        },
        settings: Settings { auto_include: true, auto_linking_ignore: vec![] },
        included_files: vec!["a.frac".to_string()],
        exclude_files: vec![],
    };
    assert_eq!(project.meta.title, "a project");
    assert!(project.settings.auto_include);
    assert_eq!(project.included_files.len(), 1);
    assert_eq!(project.clone(), project);
}
