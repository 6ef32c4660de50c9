use resumark::theme::{
    ControlKind, ControlSummary, ManifestSummary, NewValue, ThemeRange, check_new_value,
    is_valid_color, is_valid_key, json_offset, locate_manifest, manifest_read_error,
    replace_manifest, validate_manifest,
};
use serde_json::Value;

const SOURCE: &str = r##"/* resumark-theme
{
  "version": 1,
  "name": "Test",
  "description": "A test theme",
  "controls": [
    {
      "kind": "color",
      "key": "accent_color",
      "label": "Accent",
      "group": "Color",
      "value": "#112233"
    }
  ]
}
*/
#let render(resume, settings, theme) = resume
"##;

fn text_of(value: &Value) -> String {
    value.as_str().unwrap_or_default().to_owned()
}

/// Reads the manifest JSON into what the manifest checks read.
fn summary_of(json: &Value) -> ManifestSummary {
    let controls = json["controls"]
        .as_array()
        .map(|controls| {
            controls
                .iter()
                .map(|control| {
                    let kind = match control["kind"].as_str() {
                        Some("color") => ControlKind::Color {
                            value: text_of(&control["value"]),
                        },
                        Some("font") => ControlKind::Font {
                            value: text_of(&control["value"]),
                            options: control["options"]
                                .as_array()
                                .map(|options| options.iter().map(text_of).collect())
                                .unwrap_or_default(),
                        },
                        _ => ControlKind::Number { bounds_valid: true },
                    };
                    ControlSummary {
                        key: text_of(&control["key"]),
                        label: text_of(&control["label"]),
                        group: text_of(&control["group"]),
                        kind,
                    }
                })
                .collect()
        })
        .unwrap_or_default();
    ManifestSummary {
        version: json["version"].as_u64().unwrap_or(0) as u32,
        name: text_of(&json["name"]),
        description: text_of(&json["description"]),
        controls,
    }
}

fn manifest_json(source: &str) -> (ThemeRange, Value) {
    let range = locate_manifest(source).expect("the manifest should be found");
    let json: Value =
        serde_json::from_str(&source[range.start..range.end]).expect("the manifest is JSON");
    (range, json)
}

#[test]
fn parses_a_theme_and_collects_values() {
    let (range, json) = manifest_json(SOURCE);
    let manifest = summary_of(&json);
    validate_manifest(&manifest, range).expect("the theme should parse");

    assert_eq!(manifest.name, "Test");
    assert_eq!(json["controls"][0]["key"], "accent_color");
    assert_eq!(json["controls"][0]["value"], "#112233");
}

#[test]
fn changing_a_control_preserves_typst_source() {
    let (range, mut json) = manifest_json(SOURCE);
    let manifest = summary_of(&json);
    let index = check_new_value(
        &manifest.controls,
        "accent_color",
        &NewValue::Text("#abcdef".to_owned()),
    )
    .expect("the new color should be valid");
    json["controls"][index]["value"] = Value::from("#abcdef");
    let text = serde_json::to_string_pretty(&json).expect("the manifest serializes");
    let (source, new_range) = replace_manifest(SOURCE, range, &text);

    assert!(source.ends_with("#let render(resume, settings, theme) = resume\n"));
    let (again, reread) = manifest_json(&source);
    assert_eq!(again, new_range);
    validate_manifest(&summary_of(&reread), again).expect("rewritten source should parse");
    assert_eq!(reread["controls"][0]["value"], "#abcdef");
}

#[test]
fn rejects_an_invalid_manifest() {
    let source = SOURCE.replace("#112233", "blue");
    let (range, json) = manifest_json(&source);
    let error = validate_manifest(&summary_of(&json), range)
        .expect_err("named colors are outside the manifest format");

    assert!(error.message.contains("#RRGGBB"));
    assert!(error.range.is_some());
}

#[test]
fn the_manifest_range_is_the_json_between_the_markers() {
    let range = locate_manifest(SOURCE).expect("the manifest should be found");
    assert_eq!(range.start, "/* resumark-theme\n".len());
    assert!(SOURCE[range.end..].starts_with("\n*/"));
    assert!(SOURCE[range.start..range.end].starts_with('{'));
    assert!(SOURCE[range.start..range.end].ends_with('}'));
}

#[test]
fn a_byte_order_mark_and_whitespace_may_precede_the_manifest() {
    let source = format!("\u{feff}  \n{SOURCE}");
    let range = locate_manifest(&source).expect("the manifest should be found");
    assert_eq!(range.start, 3 + 3 + "/* resumark-theme\n".len());
}

#[test]
fn a_theme_without_a_manifest_is_refused_at_its_first_text() {
    let error = locate_manifest("  #let x = 1\n").expect_err("no manifest");
    assert_eq!(error.message, "theme must start with a `resumark-theme` manifest");
    assert_eq!(error.range, Some(ThemeRange { start: 2, end: 2 }));
}

#[test]
fn an_unclosed_manifest_is_refused() {
    let source = "/* resumark-theme\n{}\n";
    let error = locate_manifest(source).expect_err("no closing line");
    assert_eq!(error.message, "theme manifest is missing its closing `*/`");
    assert_eq!(error.range, Some(ThemeRange { start: 0, end: source.len() }));
}

#[test]
fn an_oversized_theme_is_refused() {
    let source = "x".repeat(262_145);
    let error = locate_manifest(&source).expect_err("too large");
    assert_eq!(error.message, "theme source is 262145 bytes; the limit is 262144");
    assert_eq!(error.range, None);
}

#[test]
fn an_oversized_manifest_is_refused() {
    let source = format!("/* resumark-theme\n{}\n*/\n", " ".repeat(32_769));
    let error = locate_manifest(&source).expect_err("manifest too large");
    assert_eq!(error.message, "theme manifest exceeds 32768 bytes");
    assert_eq!(error.range, Some(ThemeRange { start: 18, end: 18 + 32_769 }));
}

#[test]
fn json_offsets_follow_lines_and_columns() {
    let json = "{\n  \"a\": 1,\n  \"bé\": x\n}";
    // Line 3, column 9 points at the `x`: after the second line feed.
    let third_line = json.find("  \"bé\"").expect("the line exists");
    assert_eq!(json_offset(json, 3, 9), third_line + "  \"bé\": ".len());
    // Columns past the end of the line stop at the line's end.
    assert_eq!(json_offset(json, 2, 99), json.find(",\n  \"bé").expect("comma") + 1);
    // Lines 1 and 2 are both read as starting after the first line feed.
    assert_eq!(json_offset(json, 1, 1), 2);
    assert_eq!(json_offset(json, 0, 0), 2);
    // Without enough line feeds the line starts at the beginning.
    assert_eq!(json_offset("abc", 5, 2), 1);
}

#[test]
fn unreadable_manifests_point_at_the_parser_position() {
    let manifest = ThemeRange { start: 18, end: 30 };
    let error = manifest_read_error("{\n  oops\n}", manifest, 2, 3, "expected value");
    assert_eq!(error.message, "could not read theme manifest: expected value");
    assert_eq!(error.range, Some(ThemeRange { start: 22, end: 23 }));

    let at_end = manifest_read_error("{", ThemeRange { start: 18, end: 19 }, 1, 2, "EOF");
    assert_eq!(at_end.range, Some(ThemeRange { start: 19, end: 19 }));
}

fn sample_manifest() -> ManifestSummary {
    ManifestSummary {
        version: 1,
        name: "Sample".to_owned(),
        description: "A sample".to_owned(),
        controls: vec![
            ControlSummary {
                key: "accent_color".to_owned(),
                label: "Accent".to_owned(),
                group: "Color".to_owned(),
                kind: ControlKind::Color {
                    value: "#112233".to_owned(),
                },
            },
            ControlSummary {
                key: "body_font".to_owned(),
                label: "Body".to_owned(),
                group: "Type".to_owned(),
                kind: ControlKind::Font {
                    value: "Source Sans 3".to_owned(),
                    options: vec!["Libertinus Serif".to_owned(), "Source Sans 3".to_owned()],
                },
            },
            ControlSummary {
                key: "margin".to_owned(),
                label: "Margin".to_owned(),
                group: "Layout".to_owned(),
                kind: ControlKind::Number { bounds_valid: true },
            },
        ],
    }
}

fn refusal(manifest: &ManifestSummary) -> String {
    let range = ThemeRange { start: 18, end: 40 };
    let error = validate_manifest(manifest, range).expect_err("the manifest is invalid");
    assert_eq!(error.range, Some(range));
    error.message
}

#[test]
fn a_valid_manifest_passes() {
    assert!(validate_manifest(&sample_manifest(), ThemeRange { start: 0, end: 1 }).is_ok());
}

#[test]
fn manifest_problems_are_named() {
    let mut manifest = sample_manifest();
    manifest.version = 2;
    assert_eq!(refusal(&manifest), "unsupported theme version 2; expected 1");

    let mut manifest = sample_manifest();
    manifest.name = "   ".to_owned();
    assert_eq!(refusal(&manifest), "theme name must contain 1 to 80 characters");
    manifest.name = "é".repeat(81);
    assert_eq!(refusal(&manifest), "theme name must contain 1 to 80 characters");
    manifest.name = "é".repeat(80);
    assert!(validate_manifest(&manifest, ThemeRange { start: 0, end: 1 }).is_ok());

    let mut manifest = sample_manifest();
    manifest.description = "d".repeat(241);
    assert_eq!(refusal(&manifest), "theme description cannot exceed 240 characters");

    let mut manifest = sample_manifest();
    let extra = manifest.controls[2].clone();
    manifest.controls = (0..33)
        .map(|index| ControlSummary {
            key: format!("k{index}"),
            ..extra.clone()
        })
        .collect();
    assert_eq!(refusal(&manifest), "theme has too many controls; the limit is 32");
}

#[test]
fn control_problems_are_named_in_order() {
    let mut manifest = sample_manifest();
    manifest.controls[1].key = "Body".to_owned();
    assert_eq!(refusal(&manifest), "`Body` is not a valid control key");

    let mut manifest = sample_manifest();
    manifest.controls[2].key = "accent_color".to_owned();
    assert_eq!(refusal(&manifest), "theme contains more than one `accent_color` control");

    let mut manifest = sample_manifest();
    manifest.controls[0].label = " ".to_owned();
    manifest.controls[1].key = "Body".to_owned();
    assert_eq!(refusal(&manifest), "`accent_color` must have a label and group");

    let mut manifest = sample_manifest();
    manifest.controls[2].kind = ControlKind::Number { bounds_valid: false };
    assert_eq!(refusal(&manifest), "`margin` has invalid numeric bounds or value");

    let mut manifest = sample_manifest();
    manifest.controls[0].kind = ControlKind::Color {
        value: "#12345g".to_owned(),
    };
    assert_eq!(refusal(&manifest), "`accent_color` must use a #RRGGBB color");

    let mut manifest = sample_manifest();
    manifest.controls[1].kind = ControlKind::Font {
        value: "Comic Sans".to_owned(),
        options: vec!["Libertinus Serif".to_owned()],
    };
    assert_eq!(refusal(&manifest), "`body_font` must select from the bundled font families");
    manifest.controls[1].kind = ControlKind::Font {
        value: "Comic Sans".to_owned(),
        options: vec!["Comic Sans".to_owned()],
    };
    assert_eq!(refusal(&manifest), "`body_font` must select from the bundled font families");
    manifest.controls[1].kind = ControlKind::Font {
        value: "Source Sans 3".to_owned(),
        options: Vec::new(),
    };
    assert_eq!(refusal(&manifest), "`body_font` must select from the bundled font families");
}

#[test]
fn keys_and_colors_follow_their_formats() {
    assert!(is_valid_key("accent_color2"));
    assert!(is_valid_key("a"));
    assert!(!is_valid_key(""));
    assert!(!is_valid_key("2accent"));
    assert!(!is_valid_key("_accent"));
    assert!(!is_valid_key("accent-color"));
    assert!(!is_valid_key("accént"));

    assert!(is_valid_color("#A0b1C2"));
    assert!(!is_valid_color("A0b1C2#"));
    assert!(!is_valid_color("#A0b1C"));
    assert!(!is_valid_color("#A0b1C2F"));
    assert!(!is_valid_color("#A0b1Cé"));
}

#[test]
fn new_values_are_checked_against_their_control() {
    let controls = sample_manifest().controls;
    assert_eq!(
        check_new_value(&controls, "body_font", &NewValue::Text("Libertinus Serif".to_owned())).ok(),
        Some(1)
    );
    assert_eq!(
        check_new_value(&controls, "margin", &NewValue::Number { within_bounds: true }).ok(),
        Some(2)
    );

    let missing = check_new_value(&controls, "nope", &NewValue::Text("x".to_owned()))
        .expect_err("there is no such control");
    assert_eq!(missing.message, "theme has no `nope` control");
    assert_eq!(missing.range, None);

    for (key, value) in [
        ("margin", NewValue::Number { within_bounds: false }),
        ("margin", NewValue::Text("1".to_owned())),
        ("accent_color", NewValue::Text("red".to_owned())),
        ("accent_color", NewValue::Number { within_bounds: true }),
        ("body_font", NewValue::Text("Comic Sans".to_owned())),
    ] {
        let error = check_new_value(&controls, key, &value).expect_err("the value is refused");
        assert_eq!(error.message, format!("invalid value for `{key}`"));
    }
}

#[test]
fn rewriting_keeps_the_text_around_the_manifest() {
    let source = "é/* resumark-theme\n{}\n*/\nrest é";
    let (rewritten, range) = replace_manifest(source, ThemeRange { start: 20, end: 22 }, "{\"a\": 1}");
    assert_eq!(rewritten, "é/* resumark-theme\n{\"a\": 1}\n*/\nrest é");
    assert_eq!(range, ThemeRange { start: 20, end: 28 });
}
