use resumark::diagnostic::{DiagnosticCode, Severity, SourceRange};
use resumark::events::{MarkdownEvent, SourcedEvent, StartTag, TagKind, markdown_events};
use resumark::markdown::{ParseLimits, analyze_events, analyze_markdown};
use resumark::model::{Block, HeadingLevel, Inline, ListKind};

fn codes(source: &str) -> Vec<DiagnosticCode> {
    analyze_markdown(source, &ParseLimits::default())
        .diagnostics
        .iter()
        .map(|diagnostic| diagnostic.code)
        .collect()
}

fn event(event: MarkdownEvent, start: usize, end: usize) -> SourcedEvent {
    SourcedEvent {
        event,
        range: SourceRange::new(start, end),
    }
}

#[test]
fn control_characters_are_reported_in_order_with_their_code_points() {
    let source = "# A\u{7f}\n\u{1}é\t\r\n";
    let analysis = analyze_markdown(source, &ParseLimits::default());
    assert!(analysis.document.is_none());
    assert!(analysis.has_errors());
    let messages: Vec<&str> = analysis.diagnostics.iter().map(|d| d.message.as_str()).collect();
    assert_eq!(
        messages,
        vec![
            "the Markdown source contains disallowed control character U+007F",
            "the Markdown source contains disallowed control character U+0001",
        ]
    );
    assert_eq!(analysis.diagnostics[0].range, Some(SourceRange::new(3, 4)));
    assert_eq!(analysis.diagnostics[1].range, Some(SourceRange::new(5, 6)));
    assert_eq!(
        analysis.diagnostics[0].help.as_deref(),
        Some("remove the control character; tabs and ordinary line breaks are allowed")
    );
}

#[test]
fn oversized_sources_get_one_diagnostic_covering_them() {
    let source = "# Jane Doe\n\u{0}";
    let limits = ParseLimits {
        max_source_bytes: 10,
        max_nesting_depth: 16,
    };
    let analysis = analyze_markdown(source, &limits);
    assert_eq!(analysis.diagnostics.len(), 1);
    assert_eq!(
        analysis.diagnostics[0].message,
        "the Markdown source is 12 bytes; the current limit is 10 bytes"
    );
    assert_eq!(analysis.diagnostics[0].range, Some(SourceRange::new(0, 12)));
    assert_eq!(analysis.diagnostics[0].severity, Severity::Error);
}

#[test]
fn a_resume_needs_a_level_one_heading() {
    let analysis = analyze_markdown("## Experience\n\nText\n", &ParseLimits::default());
    assert!(analysis.document.is_none());
    assert_eq!(analysis.diagnostics.len(), 1);
    assert_eq!(analysis.diagnostics[0].code, DiagnosticCode::MissingTitle);
    assert_eq!(analysis.diagnostics[0].range, None);
    assert_eq!(
        analysis.diagnostics[0].message,
        "the Markdown document needs a level-one heading for the resume name"
    );
}

#[test]
fn the_title_is_the_first_level_one_heading_with_text() {
    let analysis = analyze_markdown("#\n\n#   Jane  *Q.*  Doe  \n\n# Later\n", &ParseLimits::default());
    assert!(analysis.diagnostics.is_empty());
    let document = analysis.document.expect("the resume is valid");
    assert_eq!(document.metadata.title, "Jane  Q.  Doe");
}

#[test]
fn the_document_keeps_lists_links_and_inline_content() {
    let source = "# Jane\n\nSee **bold** *it* `code` [site](https://x.dev)\n\n---\n\n3. a\n4. b\n\n- c\n";
    let analysis = analyze_markdown(source, &ParseLimits::default());
    assert!(analysis.diagnostics.is_empty(), "{:?}", analysis.diagnostics);
    let document = analysis.document.expect("the resume is valid");
    assert_eq!(document.blocks.len(), 5);
    assert!(matches!(
        document.blocks[0].kind,
        Block::Heading {
            level: HeadingLevel::One,
            ..
        }
    ));
    match &document.blocks[1].kind {
        Block::Paragraph { content } => {
            assert!(matches!(content[1].kind, Inline::Strong { .. }));
            assert!(matches!(content[3].kind, Inline::Emphasis { .. }));
            assert!(matches!(content[5].kind, Inline::Code { .. }));
            match &content[7].kind {
                Inline::Link { destination, .. } => assert_eq!(destination.as_str(), "https://x.dev"),
                other => panic!("expected a link, found {other:?}"),
            }
        }
        other => panic!("expected a paragraph, found {other:?}"),
    }
    assert!(matches!(document.blocks[2].kind, Block::Divider));
    match &document.blocks[3].kind {
        Block::List { list_kind, items } => {
            assert_eq!(*list_kind, ListKind::Ordered { start: 3 });
            assert_eq!(items.len(), 2);
            assert!(matches!(items[0].blocks[0].kind, Block::Paragraph { .. }));
        }
        other => panic!("expected a list, found {other:?}"),
    }
    match &document.blocks[4].kind {
        Block::List { list_kind, .. } => assert_eq!(*list_kind, ListKind::Unordered),
        other => panic!("expected a list, found {other:?}"),
    }
}

#[test]
fn unsupported_constructs_are_named() {
    let cases = [
        ("# J\n\n> quote\n", "Resumark does not support Markdown block quotes"),
        ("# J\n\n```\ncode\n```\n", "Resumark does not support Markdown code blocks"),
        ("# J\n\n~~gone~~\n", "Resumark does not support Markdown strikethrough"),
        ("# J\n\n![alt](https://x.dev/i.png)\n", "Resumark does not support Markdown images"),
        ("# J\n\n- [ ] task\n", "Resumark does not support Markdown task-list markers"),
        ("# J\n\nx $y$\n", "Resumark does not support Markdown math"),
        ("# J {#id}\n\n# K\n", "Resumark does not support Markdown heading attributes"),
    ];
    for (source, message) in cases {
        let analysis = analyze_markdown(source, &ParseLimits::default());
        assert!(analysis.document.is_none(), "{source}");
        assert!(
            analysis.diagnostics.iter().any(|d| d.message == message
                && d.code == DiagnosticCode::UnsupportedMarkdown),
            "{source}: {:?}",
            analysis.diagnostics
        );
    }
}

#[test]
fn inline_html_is_raw_html_too() {
    assert_eq!(codes("# J\n\ntext <b>x</b>\n"), vec![
        DiagnosticCode::UnsupportedRawHtml,
        DiagnosticCode::UnsupportedRawHtml,
    ]);
}

#[test]
fn refused_links_keep_their_label_and_report_the_scheme() {
    let analysis = analyze_markdown("# J\n\n[x](ftp://host)\n", &ParseLimits::default());
    assert_eq!(analysis.diagnostics.len(), 1);
    assert_eq!(analysis.diagnostics[0].message, "the link scheme `ftp` is not allowed");
    assert_eq!(
        analysis.diagnostics[0].help.as_deref(),
        Some("use an https, http, mailto, or tel link")
    );
}

#[test]
fn diagnostics_come_in_source_order() {
    let analysis = analyze_markdown("<p>x</p>\n\n> q\n", &ParseLimits::default());
    let starts: Vec<Option<usize>> = analysis
        .diagnostics
        .iter()
        .map(|d| d.range.map(|r| r.start))
        .collect();
    assert_eq!(starts, vec![Some(0), Some(10), None]);
}

#[test]
fn the_parser_reports_headings_text_and_ends() {
    let events = markdown_events("# Jane\n");
    assert_eq!(
        events,
        vec![
            event(
                MarkdownEvent::Start(StartTag::Heading {
                    level: 1,
                    id: false,
                    classes: 0,
                    attributes: 0,
                }),
                0,
                7,
            ),
            event(MarkdownEvent::Text("Jane".to_owned()), 2, 6),
            event(MarkdownEvent::End(TagKind::Heading), 0, 7),
        ]
    );
}

#[test]
fn events_that_break_the_structure_stop_the_analysis() {
    let analysis = analyze_events(
        "# Jane",
        &ParseLimits::default(),
        vec![
            event(MarkdownEvent::Start(StartTag::Other(TagKind::Paragraph)), 0, 1),
            event(MarkdownEvent::End(TagKind::Heading), 1, 2),
            event(MarkdownEvent::Text("ignored".to_owned()), 2, 3),
        ],
    );
    assert!(analysis.document.is_none());
    assert_eq!(analysis.diagnostics.len(), 1);
    assert_eq!(analysis.diagnostics[0].code, DiagnosticCode::UnexpectedMarkdownStructure);
    assert_eq!(analysis.diagnostics[0].range, Some(SourceRange::new(1, 2)));
}

#[test]
fn unclosed_elements_are_unexpected_structure() {
    let analysis = analyze_events(
        "# Jane",
        &ParseLimits::default(),
        vec![event(MarkdownEvent::Start(StartTag::Other(TagKind::Paragraph)), 0, 1)],
    );
    assert_eq!(analysis.diagnostics.len(), 1);
    assert_eq!(analysis.diagnostics[0].range, Some(SourceRange::new(0, 0)));
    assert_eq!(
        analysis.diagnostics[0].message,
        "the Markdown parser produced an unexpected event sequence"
    );
}

#[test]
fn hand_written_events_build_a_document() {
    let analysis = analyze_events(
        "# Jane",
        &ParseLimits::default(),
        vec![
            event(
                MarkdownEvent::Start(StartTag::Heading {
                    level: 1,
                    id: false,
                    classes: 0,
                    attributes: 0,
                }),
                0,
                6,
            ),
            event(MarkdownEvent::Text(" Jane ".to_owned()), 2, 6),
            event(MarkdownEvent::End(TagKind::Heading), 0, 6),
        ],
    );
    assert!(analysis.diagnostics.is_empty());
    assert_eq!(analysis.document.expect("valid").metadata.title, "Jane");
}

#[test]
fn the_checks_before_parsing_ignore_the_events() {
    let analysis = analyze_events(
        "# Jane\u{0}",
        &ParseLimits::default(),
        vec![event(MarkdownEvent::End(TagKind::Paragraph), 0, 1)],
    );
    assert_eq!(analysis.diagnostics.len(), 1);
    assert_eq!(analysis.diagnostics[0].code, DiagnosticCode::DisallowedControlCharacter);
}
