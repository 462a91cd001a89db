use hew::models::{Affix, Condition, Config, Section};
use hew::service::{filter, format_line};

fn affix(condition: Condition, prefix: &str, suffix: &str) -> Affix {
    Affix {
        condition,
        prefix: Some(prefix.to_owned()),
        suffix: Some(suffix.to_owned()),
    }
}

fn section(attribute: &str, affixes: Vec<Affix>) -> Section {
    Section {
        name: attribute.to_owned(),
        attribute: attribute.to_owned(),
        affixes,
    }
}

fn config() -> Config {
    Config {
        sections: vec![
            section("timestamp", vec![]),
            section(
                "level",
                vec![
                    affix(Condition::Equals("INFO".to_owned()), "<g>", "</g>"),
                    affix(Condition::Always, " ", " "),
                ],
            ),
            section("message", vec![]),
        ],
    }
}

fn format(line: &str) -> String {
    let mut out = String::new();
    format_line(line, &config().sections, &mut out);
    out
}

#[test]
fn formats_a_complete_object() {
    let out = format(r#"{"timestamp":"T","level":"INFO","message":"hello"}"#);
    assert_eq!(out, "T <g>INFO</g> hello");
}

#[test]
fn affixes_nest_outermost_first() {
    let out = format(r#"{"timestamp":"T","level":"INFO","message":"m"}"#);
    assert_eq!(
        out, "T <g>INFO</g> m",
        "expected <g> outside the padding space"
    );
    assert!(
        out.contains("<g>INFO</g>"),
        "suffix must close before the trailing space"
    );
}

#[test]
fn a_condition_that_does_not_hold_contributes_nothing() {
    let out = format(r#"{"timestamp":"T","level":"WARN","message":"m"}"#);
    assert_eq!(out, "T WARN m");
}

#[test]
fn non_string_values_render_through_display() {
    let config = Config {
        sections: vec![section("v", vec![])],
    };
    let render = |line: &str| {
        let mut out = String::new();
        format_line(line, &config.sections, &mut out);
        out
    };
    assert_eq!(render(r#"{"v":42}"#), "42");
    assert_eq!(render(r#"{"v":true}"#), "true");
    assert_eq!(render(r#"{"v":null}"#), "null");
    assert_eq!(render(r#"{"v":1.5}"#), "1.5");
    assert_eq!(render(r#"{"v":[1,2]}"#), "[1,2]");
    assert_eq!(render(r#"{"v":{"a":1}}"#), r#"{"a":1}"#);
}

#[test]
fn malformed_json_passes_through_verbatim() {
    let line = "this is not JSON at all";
    assert_eq!(format(line), line);
    let truncated = r#"{"timestamp":"T","level":"#;
    assert_eq!(format(truncated), truncated);
}

#[test]
fn valid_json_that_is_not_an_object_passes_through_verbatim() {
    for line in [r"[1,2]", r#""a string""#, "42", "true", "null"] {
        assert_eq!(format(line), line, "{line} should have passed through");
    }
}

#[test]
fn a_missing_middle_attribute_skips_only_its_own_section() {
    assert_eq!(format(r#"{"timestamp":"T","message":"m"}"#), "Tm");
}

#[test]
fn a_missing_first_attribute_leaves_the_following_affixes_in_place() {
    assert_eq!(
        format(r#"{"level":"INFO","message":"m"}"#),
        " <g>INFO</g> m"
    );
}

#[test]
fn a_missing_last_attribute_still_renders_the_rest() {
    assert_eq!(
        format(r#"{"timestamp":"T","level":"INFO"}"#),
        "T <g>INFO</g> "
    );
}

#[test]
fn an_object_matching_no_section_passes_through_verbatim() {
    let line = r#"{"foo":1,"bar":"baz"}"#;
    assert_eq!(format(line), line);
}

#[test]
fn an_empty_object_passes_through_verbatim() {
    assert_eq!(format("{}"), "{}");
}

#[test]
fn an_empty_line_stays_empty() {
    assert_eq!(format(""), "");
}

#[test]
fn escaped_newlines_and_tabs_are_unescaped_into_the_output() {
    let line = r#"{"timestamp":"T","level":"ERROR","message":"boom\n\tat Foo.java:1"}"#;
    assert_eq!(format(line), "T ERROR boom\n\tat Foo.java:1");
}

#[test]
fn extra_attributes_in_the_input_are_ignored() {
    let line = r#"{"timestamp":"T","level":"INFO","message":"m","package":"db","extra":1}"#;
    assert_eq!(format(line), "T <g>INFO</g> m");
}

#[test]
fn a_config_with_no_sections_passes_everything_through() {
    let empty = Config { sections: vec![] };
    let mut out = String::new();
    format_line(r#"{"a":1}"#, &empty.sections, &mut out);
    assert_eq!(out, r#"{"a":1}"#);
}

// --- stream level -------------------------------------------------------

fn run_filter(input: &str) -> String {
    let mut out: Vec<u8> = Vec::new();
    filter(input.as_bytes(), &mut out, &config());
    String::from_utf8(out).unwrap()
}

#[test]
fn a_mixed_stream_formats_what_it_can_and_passes_the_rest() {
    let input = [
        r#"{"timestamp":"T","level":"INFO","message":"one"}"#,
        "\n",
        "a plain log line\n",
        r#"{"timestamp":"T","level":"WARN","message":"two"}"#,
        "\n",
    ]
    .concat();
    assert_eq!(
        run_filter(&input),
        "T <g>INFO</g> one\na plain log line\nT WARN two\n"
    );
}

#[test]
fn empty_input_produces_empty_output() {
    assert_eq!(run_filter(""), "");
}

#[test]
fn a_final_line_without_a_newline_is_still_emitted() {
    assert_eq!(run_filter("plain"), "plain\n");
}

#[test]
fn crlf_terminators_are_stripped() {
    assert_eq!(run_filter("plain\r\n"), "plain\n");
}

#[test]
fn blank_lines_are_preserved() {
    assert_eq!(run_filter("\n\n"), "\n\n");
}

#[test]
fn invalid_utf8_does_not_abort_the_stream() {
    let mut input: Vec<u8> = Vec::new();
    input.extend_from_slice(b"before\n");
    input.extend_from_slice(&[0xff, 0xfe, b'\n']);
    input.extend_from_slice(b"after\n");

    let mut out: Vec<u8> = Vec::new();
    filter(input.as_slice(), &mut out, &config());
    let text = String::from_utf8(out).unwrap();

    let lines: Vec<&str> = text.lines().collect();
    assert_eq!(lines.len(), 3, "every line must survive: {text:?}");
    assert_eq!(lines[0], "before");
    assert_eq!(lines[2], "after");
    assert!(lines[1].contains('\u{fffd}'), "got: {:?}", lines[1]);
}
