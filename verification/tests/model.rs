use resumark::diagnostic::SourceRange;
use resumark::model::{HeadingLevel, Inline, InlineNode, InvalidLinkTarget, LinkTarget};

#[test]
fn allowed_link_schemes_ignore_case() {
    for destination in ["HTTPS://x.dev", "http://x", "MailTo:a@b.c", "tel:+1", "mailto:"] {
        let target = LinkTarget::parse(destination.to_owned()).expect("the scheme is allowed");
        assert_eq!(target.as_str(), destination);
    }
}

#[test]
fn other_link_schemes_are_refused_by_name() {
    let error = LinkTarget::parse("javascript:alert(1)".to_owned()).expect_err("refused");
    assert_eq!(error, InvalidLinkTarget::DisallowedScheme("javascript".to_owned()));
    assert_eq!(error.message(), "the link scheme `javascript` is not allowed");

    let error = LinkTarget::parse(":x".to_owned()).expect_err("empty scheme");
    assert_eq!(error.message(), "the link scheme `` is not allowed");

    let error = LinkTarget::parse("ftp:a:b".to_owned()).expect_err("the first colon counts");
    assert_eq!(error, InvalidLinkTarget::DisallowedScheme("ftp".to_owned()));
}

#[test]
fn links_need_a_scheme() {
    let error = LinkTarget::parse("example.com".to_owned()).expect_err("no scheme");
    assert_eq!(error, InvalidLinkTarget::MissingScheme);
    assert_eq!(error.message(), "the link destination has no scheme");
}

#[test]
fn heading_levels_are_one_through_six() {
    for number in 1..=6u8 {
        let level = HeadingLevel::from_number(number).expect("valid level");
        assert_eq!(level.to_number(), number);
    }
    let error = HeadingLevel::from_number(7).expect_err("too deep");
    assert_eq!(error.level(), 7);
    assert_eq!(error.message(), "heading level 7 is outside 1 through 6");
    assert_eq!(HeadingLevel::from_number(0).expect_err("zero").message(), "heading level 0 is outside 1 through 6");
}

#[test]
fn plain_text_joins_nested_content_with_spaces_for_breaks() {
    let range = SourceRange::new(0, 1);
    let node = InlineNode {
        range,
        kind: Inline::Strong {
            content: vec![
                InlineNode {
                    range,
                    kind: Inline::Text {
                        value: "Jane".to_owned(),
                    },
                },
                InlineNode {
                    range,
                    kind: Inline::SoftBreak,
                },
                InlineNode {
                    range,
                    kind: Inline::Link {
                        destination: LinkTarget::parse("https://x".to_owned()).expect("valid"),
                        label: vec![InlineNode {
                            range,
                            kind: Inline::Code {
                                value: "Doe".to_owned(),
                            },
                        }],
                    },
                },
                InlineNode {
                    range,
                    kind: Inline::HardBreak,
                },
            ],
        },
    };
    let mut text = "> ".to_owned();
    node.plain_text(&mut text);
    assert_eq!(text, "> Jane Doe ");
}

#[test]
fn heading_levels_convert_to_and_from_numbers() {
    assert_eq!(u8::from(HeadingLevel::Three), 3);
    assert_eq!(HeadingLevel::try_from(6u8), Ok(HeadingLevel::Six));
    let error = HeadingLevel::try_from(9u8).expect_err("no ninth level");
    assert_eq!(error.level(), 9);
}
