use hew::models::{Affix, Condition, Config, Section};
use hew::service::{filter, format_line, format_parsed, format_section, value_text, write_record};

fn always(prefix: &str, suffix: &str) -> Affix {
    Affix {
        condition: Condition::Always,
        prefix: Some(prefix.to_owned()),
        suffix: Some(suffix.to_owned()),
    }
}

fn section(attribute: &str, affixes: Vec<Affix>) -> Section {
    Section {
        name: attribute.to_owned(),
        attribute: attribute.to_owned(),
        affixes,
    }
}

fn render(line: &str, sections: &[Section]) -> String {
    let mut out = String::new();
    format_line(line, sections, &mut out);
    out
}

fn stream(input: &[u8], config: &Config) -> Vec<u8> {
    let mut out = Vec::new();
    filter(input, &mut out, config);
    out
}

fn sample() -> Config {
    Config {
        sections: vec![
            section("a", vec![always("<", ">")]),
            section("b", vec![always("[", "]")]),
        ],
    }
}

#[test]
fn a_later_affix_wraps_the_earlier_ones() {
    let sections = [section("v", vec![always("(", ")"), always("[", "]")])];
    assert_eq!(render(r#"{"v":"x"}"#, &sections), "[(x)]");
}

#[test]
fn an_inapplicable_affix_contributes_nothing() {
    let skipped = Affix {
        condition: Condition::Equals("other".to_owned()),
        prefix: Some("!".to_owned()),
        suffix: Some("?".to_owned()),
    };
    let with = [section("v", vec![always("(", ")"), skipped, always("[", "]")])];
    let without = [section("v", vec![always("(", ")"), always("[", "]")])];
    let line = r#"{"v":"x"}"#;
    assert_eq!(render(line, &with), render(line, &without));
}

#[test]
fn affixes_without_prefix_or_suffix_add_only_what_they_have() {
    let only_prefix = Affix {
        condition: Condition::Always,
        prefix: Some(">".to_owned()),
        suffix: None,
    };
    let only_suffix = Affix {
        condition: Condition::Always,
        prefix: None,
        suffix: Some("<".to_owned()),
    };
    let sections = [section("v", vec![only_prefix, only_suffix])];
    assert_eq!(render(r#"{"v":"x"}"#, &sections), ">x<");
}

#[test]
fn sections_render_in_declaration_order_not_record_order() {
    let config = sample();
    assert_eq!(render(r#"{"b":"2","a":"1"}"#, &config.sections), "<1>[2]");
}

#[test]
fn an_absent_attribute_skips_its_section_and_affixes() {
    let config = sample();
    assert_eq!(render(r#"{"b":"2"}"#, &config.sections), "[2]");
}

#[test]
fn a_non_object_line_passes_through_onto_what_came_before() {
    let config = sample();
    let mut out = "before: ".to_owned();
    format_line("not json", &config.sections, &mut out);
    assert_eq!(out, "before: not json");
}

#[test]
fn a_matched_object_is_appended_onto_what_came_before() {
    let config = sample();
    let mut out = "before: ".to_owned();
    format_line(r#"{"a":"1"}"#, &config.sections, &mut out);
    assert_eq!(out, "before: <1>");
}

#[test]
fn an_unmatched_object_replaces_what_came_before_with_the_line() {
    let config = sample();
    let mut out = "before: ".to_owned();
    format_line(r#"{"c":"3"}"#, &config.sections, &mut out);
    assert_eq!(out, r#"{"c":"3"}"#);
}

#[test]
fn no_sections_pass_every_line_through() {
    for line in ["", "plain", r#"{"a":1}"#, "[1]"] {
        assert_eq!(render(line, &[]), line);
    }
}

#[test]
fn a_duplicated_key_takes_its_last_value() {
    let sections = [section("v", vec![])];
    assert_eq!(render(r#"{"v":"first","v":"last"}"#, &sections), "last");
}

#[test]
fn formatting_from_parsed_members_uses_them_and_not_the_line() {
    let config = sample();
    let parsed = Some(vec![("a".to_owned(), Some("1".to_owned()), "\"1\"".to_owned())]);
    let mut out = String::new();
    format_parsed("ignored text", &parsed, &config.sections, &mut out);
    assert_eq!(out, "<1>");
    let mut out = String::new();
    format_parsed("kept text", &None, &config.sections, &mut out);
    assert_eq!(out, "kept text");
}

#[test]
fn format_section_reports_whether_its_attribute_is_present() {
    let fields = vec![("a".to_owned(), None, "1".to_owned())];
    let mut out = String::new();
    assert!(format_section(&fields, &section("a", vec![always("<", ">")]), &mut out));
    assert!(!format_section(&fields, &section("b", vec![always("[", "]")]), &mut out));
    assert_eq!(out, "<1>");
}

#[test]
fn streams_compose_at_line_breaks() {
    let config = sample();
    let first = b"{\"a\":\"1\"}\nplain\n";
    let second = b"{\"b\":\"2\"}\ntail";
    let mut whole = first.to_vec();
    whole.extend_from_slice(second);
    let mut pieces = stream(first, &config);
    pieces.extend(stream(second, &config));
    assert_eq!(stream(&whole, &config), pieces);
    assert_eq!(pieces, b"<1>\nplain\n[2]\ntail\n".to_vec());
}

#[test]
fn line_by_line_records_give_the_whole_stream() {
    let config = sample();
    let input = b"{\"a\":\"1\"}\n\nplain\r\n{\"b\":2}";
    let mut by_record = Vec::new();
    for line in input.split_inclusive(|byte| *byte == b'\n') {
        write_record(line, &config.sections, &mut by_record);
    }
    assert_eq!(stream(input, &config), by_record);
    assert_eq!(by_record, b"<1>\n\nplain\n[2]\n".to_vec());
}

#[test]
fn every_record_ends_in_a_newline() {
    let config = sample();
    assert_eq!(stream(b"", &config), b"".to_vec());
    assert_eq!(stream(b"x", &config), b"x\n".to_vec());
    assert_eq!(stream(b"x\ny", &config), b"x\ny\n".to_vec());
}

#[test]
fn terminators_do_not_change_a_line() {
    let config = sample();
    let bare = stream(b"text", &config);
    assert_eq!(stream(b"text\n", &config), bare);
    assert_eq!(stream(b"text\r\n", &config), bare);
    assert_eq!(bare, b"text\n".to_vec());
}

#[test]
fn a_carriage_return_ending_the_input_is_stripped() {
    let config = sample();
    assert_eq!(stream(b"plain\r", &config), b"plain\n".to_vec());
}

#[test]
fn only_one_carriage_return_is_stripped() {
    let config = sample();
    assert_eq!(stream(b"plain\r\r\n", &config), b"plain\r\n".to_vec());
}

#[test]
fn a_plain_record_comes_out_byte_for_byte() {
    let config = sample();
    let mut out = b"> ".to_vec();
    write_record("naïve — not json\n".as_bytes(), &config.sections, &mut out);
    assert_eq!(out, "> naïve — not json\n".as_bytes().to_vec());
}

#[test]
fn undecodable_bytes_become_replacement_characters() {
    let config = sample();
    assert_eq!(
        stream(&[b'a', 0xff, b'b'], &config),
        "a\u{fffd}b\n".as_bytes().to_vec()
    );
}

#[test]
fn a_string_member_stands_for_its_text_and_any_other_for_its_rendering() {
    let string = ("k".to_owned(), Some("text".to_owned()), "\"text\"".to_owned());
    assert_eq!(value_text(&string), "text");
    let number = ("k".to_owned(), None, "42".to_owned());
    assert_eq!(value_text(&number), "42");
}

#[test]
fn invalid_bytes_without_a_brace_pass_through_as_one_line() {
    let config = sample();
    let out = stream(b"a\xff{b\n\xfe\xfd\nz\n", &config);
    let text = String::from_utf8(out).unwrap();
    let lines: Vec<&str> = text.lines().collect();
    assert_eq!(lines.len(), 3);
    assert_eq!(lines[0], "a\u{fffd}{b");
    assert!(lines[1].chars().all(|c| c == '\u{fffd}'));
    assert_eq!(lines[2], "z");
}

#[test]
fn a_valid_object_line_is_formatted_inside_a_stream() {
    let config = sample();
    assert_eq!(
        stream(b"plain\n{\"a\":\"\xc3\xa9\"}\n", &config),
        "plain\n<\u{e9}>\n".as_bytes().to_vec()
    );
}
