use resumark::diagnostic::{DiagnosticCode, SourceRange};
use resumark::events::{MarkdownEvent, SourcedEvent, StartTag, TagKind};
use resumark::markdown::{ParseLimits, analyze_events, analyze_markdown};
use resumark::model::{Block, BlockNode, Inline, InlineNode};
use resumark::settings::PaperSize;
use resumark::web::{
    MessageAction, RENDER_TIMEOUT_MS, RenderRequest, RenderScheduler, TimeoutAction, WorkerMessage,
    pdf_filename, slug, theme_filename,
};

fn inside(range: &SourceRange, length: usize) -> bool {
    range.start <= range.end && range.end <= length
}

fn inlines_inside(nodes: &[InlineNode], length: usize) -> bool {
    nodes.iter().all(|node| {
        inside(&node.range, length)
            && match &node.kind {
                Inline::Strong { content } | Inline::Emphasis { content } => {
                    inlines_inside(content, length)
                }
                Inline::Link { label, .. } => inlines_inside(label, length),
                _ => true,
            }
    })
}

fn blocks_inside(blocks: &[BlockNode], length: usize) -> bool {
    blocks.iter().all(|block| {
        inside(&block.range, length)
            && match &block.kind {
                Block::Heading { content, .. } | Block::Paragraph { content } => {
                    inlines_inside(content, length)
                }
                Block::List { items, .. } => items
                    .iter()
                    .all(|item| inside(&item.range, length) && blocks_inside(&item.blocks, length)),
                Block::Divider => true,
            }
    })
}

#[test]
fn every_range_lies_within_the_source() {
    let sources = [
        "# Jane Doe\n\nSee **bold _both_** [site](https://x.dev) `c`\n\n- a\n- b\n  1. c\n\n---\n",
        "# Jané\n\n- tight é\n- [refused](ftp://x)\n",
        "no title\n\n<div>html</div>\n",
        "# J\n\n> quote\n\n| a | b |\n|---|---|\n| 1 | 2 |\n",
        "# J\u{1}\n",
        "- item\n  - nested\n",
        "",
    ];
    for source in sources {
        let analysis = analyze_markdown(source, &ParseLimits::default());
        for diagnostic in &analysis.diagnostics {
            if let Some(range) = &diagnostic.range {
                assert!(inside(range, source.len()), "{source:?}: {diagnostic:?}");
            }
        }
        if let Some(document) = &analysis.document {
            assert!(blocks_inside(&document.blocks, source.len()), "{source:?}");
        }
    }
}

#[test]
fn raw_html_anywhere_withholds_the_document() {
    for source in [
        "# J\n\n<div>\nblock\n</div>\n",
        "# J\n\ntext <span>x</span>\n",
        "# J\n\n- item <b>bold</b>\n",
        "# J\n\n> quoted <i>x</i>\n",
    ] {
        let analysis = analyze_markdown(source, &ParseLimits::default());
        assert!(analysis.document.is_none(), "{source:?}");
        assert!(!analysis.diagnostics.is_empty(), "{source:?}");
    }
    let analysis = analyze_markdown("# J\n\n<div>\nblock\n</div>\n", &ParseLimits::default());
    assert_eq!(analysis.diagnostics[0].code, DiagnosticCode::UnsupportedRawHtml);
}

#[test]
fn html_inside_a_skipped_element_still_withholds_the_document() {
    let events = vec![
        SourcedEvent {
            event: MarkdownEvent::Start(StartTag::Heading {
                level: 1,
                id: false,
                classes: 0,
                attributes: 0,
            }),
            range: SourceRange::new(0, 3),
        },
        SourcedEvent {
            event: MarkdownEvent::Text("J".to_string()),
            range: SourceRange::new(2, 3),
        },
        SourcedEvent {
            event: MarkdownEvent::End(TagKind::Heading),
            range: SourceRange::new(0, 3),
        },
        SourcedEvent {
            event: MarkdownEvent::Html,
            range: SourceRange::new(4, 7),
        },
    ];
    let analysis = analyze_events("# J\n<p>", &ParseLimits::default(), events);
    assert!(analysis.document.is_none());
    assert_eq!(analysis.diagnostics.len(), 1);
    assert_eq!(analysis.diagnostics[0].code, DiagnosticCode::UnsupportedRawHtml);
    assert_eq!(analysis.diagnostics[0].range, Some(SourceRange::new(4, 7)));
}

#[test]
fn documents_hold_only_allowed_links() {
    let source = "# J\n\n[a](https://a.dev) [b](javascript:alert(1)) [c](mailto:x@y.z) [d](tel:+1)\n";
    let analysis = analyze_markdown(source, &ParseLimits::default());
    assert!(analysis.document.is_none());
    assert_eq!(analysis.diagnostics.len(), 1);
    assert_eq!(analysis.diagnostics[0].code, DiagnosticCode::UnsafeLinkScheme);

    let source = "# J\n\n[a](https://a.dev) **[c](mailto:x@y.z)** [d](tel:+1) [e](http://e.dev)\n";
    let analysis = analyze_markdown(source, &ParseLimits::default());
    let document = analysis.document.expect("every link is allowed");
    match &document.blocks[1].kind {
        Block::Paragraph { content } => {
            let mut destinations = Vec::new();
            for node in content {
                match &node.kind {
                    Inline::Link { destination, .. } => destinations.push(destination.as_str()),
                    Inline::Strong { content } => {
                        for inner in content {
                            if let Inline::Link { destination, .. } = &inner.kind {
                                destinations.push(destination.as_str());
                            }
                        }
                    }
                    _ => {}
                }
            }
            assert_eq!(
                destinations,
                vec!["https://a.dev", "mailto:x@y.z", "tel:+1", "http://e.dev"]
            );
        }
        other => panic!("expected a paragraph, found {other:?}"),
    }
}

fn request(markdown: &str) -> RenderRequest {
    RenderRequest {
        markdown: markdown.to_string(),
        paper: PaperSize::A4,
        max_pages: None,
    }
}

#[test]
fn a_sent_request_blocks_the_next_until_answered() {
    let mut scheduler = RenderScheduler::new();
    scheduler.worker_started();
    scheduler.worker_ready();
    scheduler.schedule(request("# A"));
    let first = scheduler.next_to_send().expect("the worker is ready and idle");
    assert_eq!(first.markdown, "# A");
    scheduler.sent(first);
    scheduler.schedule(request("# B"));
    assert!(scheduler.next_to_send().is_none());
    assert!(scheduler.next_to_send().is_none());
    scheduler.response_received();
    let second = scheduler.next_to_send().expect("the worker answered");
    assert_eq!(second.markdown, "# B");
    assert!(scheduler.next_to_send().is_none());
}

#[test]
fn a_send_arms_the_render_timeout_and_an_answer_clears_it() {
    let mut scheduler = RenderScheduler::new();
    scheduler.worker_started();
    assert_eq!(scheduler.message_received(WorkerMessage::Ready), MessageAction::SendPending);
    scheduler.schedule(request("# A"));
    let first = scheduler.next_to_send().expect("the worker is ready and idle");
    assert_eq!(scheduler.sent(first), TimeoutAction::Arm { after_ms: 5000 });
    assert_eq!(RENDER_TIMEOUT_MS, 5000);
    assert_eq!(
        scheduler.message_received(WorkerMessage::Answered),
        MessageAction::DeliverAndSendPending
    );
    assert!(scheduler.next_to_send().is_none());
}

#[test]
fn unreadable_messages_and_timeouts_give_the_worker_up() {
    let mut scheduler = RenderScheduler::new();
    scheduler.worker_started();
    scheduler.worker_ready();
    scheduler.schedule(request("# A"));
    let first = scheduler.next_to_send().expect("a request waits");
    scheduler.sent(first);
    assert_eq!(
        scheduler.message_received(WorkerMessage::Unreadable),
        MessageAction::Restart {
            failure: "render worker returned an unreadable message".to_string()
        }
    );
    scheduler.worker_started();
    scheduler.worker_ready();
    let again = scheduler.next_to_send().expect("the request waits again");
    assert_eq!(again.markdown, "# A");
    scheduler.sent(again);
    assert_eq!(
        scheduler.timed_out(),
        MessageAction::Restart {
            failure: "render timed out after 5 seconds".to_string()
        }
    );
    assert_eq!(
        scheduler.message_received(WorkerMessage::NotText),
        MessageAction::Restart {
            failure: "render worker returned a non-text message".to_string()
        }
    );
    assert_eq!(scheduler.worker_stopped(), TimeoutAction::Clear);
}

#[test]
fn slugs_keep_lowercased_words_joined_by_hyphens() {
    assert_eq!(slug("Classic Theme"), "classic-theme");
    assert_eq!(slug("  --Jane  Doe's CV 2024!! "), "jane-doe-s-cv-2024");
    assert_eq!(slug("élan"), "lan");
    assert_eq!(slug("!!!"), "");
    assert_eq!(slug(""), "");
}

#[test]
fn download_names() {
    assert_eq!(pdf_filename("resume.md"), "resume.pdf");
    assert_eq!(pdf_filename("docs/jane.md"), "jane.pdf");
    assert_eq!(pdf_filename("a/b/c.txt"), "resume.pdf");
    assert_eq!(pdf_filename("notes"), "resume.pdf");
    assert_eq!(pdf_filename("dir/"), "resume.pdf");
    assert_eq!(pdf_filename(".md"), ".pdf");
    assert_eq!(theme_filename(Some("Modern Blue")), "modern-blue.typ");
    assert_eq!(theme_filename(None), "theme.typ");
}
