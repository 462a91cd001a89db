//! Line formatting: a line that reads as a JSON object is rebuilt from the
//! sections of the configuration; every other line passes through verbatim.
use vstd::prelude::*;
use vstd::slice::slice_subrange;
use vstd::utf8::{decode_utf8, decode_utf8_encode_utf8, encode_utf8, valid_utf8};

use crate::models::{affixes_model, sections_model, AffixModel, Config, Section, SectionModel};

verus! {

/// A member of a JSON object: its key, the text of its value when the value
/// is a JSON string, and `serde_json`'s compact rendering of its value.
pub type Member = (Seq<char>, Option<Seq<char>>, Seq<char>);

/// The members of a JSON object, in the order `serde_json` lists them.
pub type Fields = Seq<Member>;

/// What `serde_json` makes of `line`: `None` unless `serde_json::from_str`
/// reads it as a JSON value that is an object; for an object, each member as
/// (key, `Value::as_str` of its value, `Value::to_string` of its value).
pub uninterp spec fn json_object_members(line: Seq<char>) -> Option<Fields>;

/// Whitespace as JSON defines it: space, newline, tab, carriage return.
pub open spec fn is_json_whitespace(c: char) -> bool {
    c == ' ' || c == '\n' || c == '\t' || c == '\r'
}

/// The first character of `line` that is not JSON whitespace is `{`: the only
/// way a JSON object can begin.
pub open spec fn opens_object(line: Seq<char>) -> bool {
    exists|i: int|
        0 <= i < line.len() && #[trigger] line[i] == '{' && forall|j: int|
            0 <= j < i ==> is_json_whitespace(#[trigger] line[j])
}

/// Reads `line` with `serde_json::from_str` into a `serde_json::Value` and, for
/// an object, lists each member as its key, `Value::as_str` of its value and
/// `Value::to_string` of its value. Claimed: the result is the named reading of
/// `line`, and there is none unless the first character after JSON whitespace
/// is `{` (serde_json builds an object only from that branch of
/// `deserialize_any`); how `serde_json` parses and renders is not stated here.
#[verifier::external_body]
fn parse_object_members(line: &str) -> (r: Option<Vec<(String, Option<String>, String)>>)
    ensures
        r.deep_view() == json_object_members(line@),
        r is Some ==> opens_object(line@),
{
    match serde_json::from_str::<serde_json::Value>(line) {
        Ok(serde_json::Value::Object(map)) => {
            let mut members = Vec::with_capacity(map.len());
            for (key, value) in map {
                members.push((key, value.as_str().map(str::to_owned), value.to_string()));
            }
            Some(members)
        },
        _ => None,
    }
}

/// The text a member's value stands for in a formatted line: a JSON string
/// stands for its own text, any other value for its compact rendering.
pub open spec fn member_text(member: Member) -> Seq<char> {
    match member.1 {
        Some(text) => text,
        None => member.2,
    }
}

/// The text a member's value stands for in a formatted line.
pub fn value_text(member: &(String, Option<String>, String)) -> (text: String)
    ensures
        text@ == member_text(member.deep_view()),
{
    match &member.1 {
        Some(text) => text.clone(),
        None => member.2.clone(),
    }
}

/// The text of the first member named `key`, if there is one.
pub open spec fn lookup(fields: Fields, key: Seq<char>) -> Option<Seq<char>>
    decreases fields.len(),
{
    if fields.len() == 0 {
        None
    } else if fields[0].0 == key {
        Some(member_text(fields[0]))
    } else {
        lookup(fields.drop_first(), key)
    }
}

/// The prefixes that `affixes` put before `value`, the last affix's first:
/// later affixes wrap earlier ones.
pub open spec fn prefixes(affixes: Seq<AffixModel>, value: Seq<char>) -> Seq<char>
    decreases affixes.len(),
{
    if affixes.len() == 0 {
        Seq::empty()
    } else {
        prefixes(affixes.drop_first(), value) + affixes[0].prefix_for(value)
    }
}

/// The suffixes that `affixes` put after `value`, the first affix's first.
pub open spec fn suffixes(affixes: Seq<AffixModel>, value: Seq<char>) -> Seq<char>
    decreases affixes.len(),
{
    if affixes.len() == 0 {
        Seq::empty()
    } else {
        suffixes(affixes.drop_last(), value) + affixes.last().suffix_for(value)
    }
}

/// `value` decorated by `affixes`.
pub open spec fn decorate(affixes: Seq<AffixModel>, value: Seq<char>) -> Seq<char> {
    prefixes(affixes, value) + value + suffixes(affixes, value)
}

/// What `section` contributes to the line built from `fields`: its attribute's
/// text, decorated, or nothing when the attribute is absent.
pub open spec fn section_text(fields: Fields, section: SectionModel) -> Seq<char> {
    match lookup(fields, section.attribute) {
        Some(value) => decorate(section.affixes, value),
        None => Seq::empty(),
    }
}

/// The contributions of `sections`, in order.
pub open spec fn sections_text(fields: Fields, sections: Seq<SectionModel>) -> Seq<char>
    decreases sections.len(),
{
    if sections.len() == 0 {
        Seq::empty()
    } else {
        sections_text(fields, sections.drop_last()) + section_text(fields, sections.last())
    }
}

/// Some section's attribute is present in `fields`.
pub open spec fn any_present(fields: Fields, sections: Seq<SectionModel>) -> bool {
    exists|i: int| 0 <= i < sections.len() && #[trigger] lookup(fields, sections[i].attribute) is Some
}

/// The text left behind by formatting `line` onto `prior`, given `parsed`,
/// what `serde_json` made of the line. A line that is no JSON object is
/// appended verbatim; an object is rebuilt from the sections whose attribute it
/// has; an object with none of them replaces everything by the verbatim line.
pub open spec fn format_onto(
    prior: Seq<char>,
    line: Seq<char>,
    parsed: Option<Fields>,
    sections: Seq<SectionModel>,
) -> Seq<char> {
    match parsed {
        None => prior + line,
        Some(fields) => if any_present(fields, sections) {
            prior + sections_text(fields, sections)
        } else {
            line
        },
    }
}

/// The formatted text of one line on its own.
pub open spec fn formatted(line: Seq<char>, sections: Seq<SectionModel>) -> Seq<char> {
    format_onto(Seq::empty(), line, json_object_members(line), sections)
}

/// Index of the first member named `key`.
fn find_field(fields: &Vec<(String, Option<String>, String)>, key: &String) -> (r: Option<usize>)
    ensures
        match r {
            Some(i) => i < fields@.len() && lookup(fields.deep_view(), key@) == Some(
                member_text(fields@[i as int].deep_view()),
            ),
            None => lookup(fields.deep_view(), key@) is None,
        },
{
    let ghost all = fields.deep_view();
    let mut i: usize = 0;
    assert(all.skip(0) =~= all);
    while i < fields.len()
        invariant
            i <= fields@.len(),
            all == fields.deep_view(),
            lookup(all, key@) == lookup(all.skip(i as int), key@),
        decreases fields@.len() - i,
    {
        assert(all.skip(i as int)[0] == all[i as int]);
        if fields[i].0 == *key {
            return Some(i);
        }
        assert(all.skip(i as int).drop_first() =~= all.skip(i + 1));
        i = i + 1;
    }
    assert(all.skip(i as int).len() == 0);
    None
}

/// Appends what `section` contributes to the line built from `fields`, and
/// tells whether the section's attribute is present.
pub fn format_section(fields: &Vec<(String, Option<String>, String)>, section: &Section, out: &mut String) -> (present: bool)
    ensures
        present == lookup(fields.deep_view(), section@.attribute) is Some,
        final(out)@ == old(out)@ + section_text(fields.deep_view(), section@),
        lookup(fields.deep_view(), section@.attribute) matches Some(v) ==> final(out)@ == old(
            out,
        )@ + prefixes(section@.affixes, v) + v + suffixes(section@.affixes, v),
        lookup(fields.deep_view(), section@.attribute) is None ==> final(out)@ == old(out)@,
{
    let index: usize = match find_field(fields, &section.attribute) {
        Some(index) => index,
        None => return false,
    };
    let text: String = value_text(&fields[index]);
    let value: &str = text.as_str();
    let ghost v = value@;
    let ghost affixes = section@.affixes;
    let ghost start = out@;
    let n: usize = section.affixes.len();
    assert(affixes.len() == n);

    // Which affixes apply, decided once per affix.
    let mut applies: Vec<bool> = Vec::with_capacity(n);
    for i in 0..n
        invariant
            n == section.affixes@.len(),
            affixes == affixes_model(section.affixes@),
            v == value@,
            applies@.len() == i,
            forall|j: int| 0 <= j < i ==> applies@[j] == affixes[j].applies(v),
    {
        applies.push(section.affixes[i].applies_to(value));
    }

    // Prefixes, the last affix's outermost.
    let mut i: usize = n;
    assert(affixes.subrange(n as int, n as int) =~= Seq::<AffixModel>::empty());
    while i > 0
        invariant
            i <= n,
            n == section.affixes@.len(),
            affixes == affixes_model(section.affixes@),
            applies@.len() == n,
            forall|j: int| 0 <= j < n ==> applies@[j] == affixes[j].applies(v),
            out@ == start + prefixes(affixes.subrange(i as int, n as int), v),
        decreases i,
    {
        i = i - 1;
        let ghost before = out@;
        if applies[i] {
            if let Some(prefix) = &section.affixes[i].prefix {
                out.append(prefix.as_str());
            }
        }
        assert(out@ == before + affixes[i as int].prefix_for(v));
        assert(affixes.subrange(i as int, n as int).drop_first() =~= affixes.subrange(
            i + 1,
            n as int,
        ));
    }
    assert(affixes.subrange(0, n as int) =~= affixes);

    out.append(value);

    // Suffixes, the first affix's innermost.
    let mut i: usize = 0;
    assert(affixes.subrange(0, 0) =~= Seq::<AffixModel>::empty());
    while i < n
        invariant
            i <= n,
            n == section.affixes@.len(),
            affixes == affixes_model(section.affixes@),
            applies@.len() == n,
            forall|j: int| 0 <= j < n ==> applies@[j] == affixes[j].applies(v),
            out@ == start + prefixes(affixes, v) + v + suffixes(affixes.subrange(0, i as int), v),
        decreases n - i,
    {
        let ghost before = out@;
        if applies[i] {
            if let Some(suffix) = &section.affixes[i].suffix {
                out.append(suffix.as_str());
            }
        }
        assert(out@ == before + affixes[i as int].suffix_for(v));
        assert(affixes.subrange(0, i + 1).drop_last() =~= affixes.subrange(0, i as int));
        i = i + 1;
    }
    assert(affixes.subrange(0, n as int) =~= affixes);
    assert(out@ =~= start + decorate(affixes, v));
    true
}

/// Formats `line` onto `out`, given `parsed`, what `serde_json` made of the line.
pub fn format_parsed(
    line: &str,
    parsed: &Option<Vec<(String, Option<String>, String)>>,
    sections: &[Section],
    out: &mut String,
)
    ensures
        final(out)@ == format_onto(
            old(out)@,
            line@,
            parsed.deep_view(),
            sections_model(sections@),
        ),
        parsed is None ==> final(out)@ == old(out)@ + line@,
        match parsed.deep_view() {
            Some(f) => (exists|i: int|
                0 <= i < sections@.len() && #[trigger] lookup(f, sections@[i]@.attribute) is Some)
                ==> final(out)@ == old(out)@ + sections_text(f, sections_model(sections@)),
            None => true,
        },
        match parsed.deep_view() {
            Some(f) => (forall|i: int|
                0 <= i < sections@.len() ==> #[trigger] lookup(f, sections@[i]@.attribute) is None)
                ==> final(out)@ == line@,
            None => true,
        },
{
    match parsed {
        None => out.append(line),
        Some(fields) => {
            let ghost f = fields.deep_view();
            let ghost model = sections_model(sections@);
            let ghost start = out@;
            let mut matched = false;
            let n: usize = sections.len();
            assert(model.subrange(0, 0) =~= Seq::<SectionModel>::empty());
            for i in 0..n
                invariant
                    n == sections@.len(),
                    f == fields.deep_view(),
                    model == sections_model(sections@),
                    out@ == start + sections_text(f, model.subrange(0, i as int)),
                    matched == (exists|j: int|
                        0 <= j < i && #[trigger] lookup(f, model[j].attribute) is Some),
            {
                let ghost before = out@;
                if format_section(fields, &sections[i], out) {
                    matched = true;
                }
                assert(model.subrange(0, i + 1).drop_last() =~= model.subrange(0, i as int));
                assert(out@ =~= start + sections_text(f, model.subrange(0, i + 1)));
            }
            assert(model.subrange(0, n as int) =~= model);
            proof {
                if exists|i: int|
                    0 <= i < sections@.len() && #[trigger] lookup(f, sections@[i]@.attribute) is Some {
                    let i: int = choose|i: int|
                        0 <= i < sections@.len() && #[trigger] lookup(f, sections@[i]@.attribute)
                            is Some;
                    assert(model[i] == sections@[i]@);
                    assert(lookup(f, model[i].attribute) is Some);
                }
                if any_present(f, model) {
                    let i: int = choose|i: int|
                        0 <= i < model.len() && #[trigger] lookup(f, model[i].attribute) is Some;
                    assert(model[i] == sections@[i]@);
                    assert(lookup(f, sections@[i]@.attribute) is Some);
                }
            }
            if !matched {
                *out = String::new();
                out.append(line);
            }
        },
    }
}

/// Formats `line` onto `out`: a JSON object line is rebuilt from the sections
/// whose attribute it has; any other line is appended verbatim.
pub fn format_line(line: &str, sections: &[Section], out: &mut String)
    ensures
        final(out)@ == format_onto(
            old(out)@,
            line@,
            json_object_members(line@),
            sections_model(sections@),
        ),
        !opens_object(line@) ==> final(out)@ == old(out)@ + line@,
        json_object_members(line@) is Some ==> opens_object(line@),
{
    let parsed = parse_object_members(line);
    format_parsed(line, &parsed, sections, out);
}

/// The byte that ends a line.
pub const NEWLINE: u8 = 10;

/// The byte that may stand before the newline of a CRLF-terminated line.
pub const CARRIAGE_RETURN: u8 = 13;

/// Length of the first record of `input`: through its first newline, or all
/// of it when it has none.
pub open spec fn record_len(input: Seq<u8>) -> nat
    decreases input.len(),
{
    if input.len() == 0 {
        0
    } else if input[0] == NEWLINE {
        1
    } else {
        1 + record_len(input.drop_first())
    }
}

/// A record of a non-empty input is at least one byte long and no longer
/// than the input.
pub proof fn lemma_record_len_bounds(input: Seq<u8>)
    ensures
        record_len(input) <= input.len(),
        input.len() > 0 ==> record_len(input) >= 1,
    decreases input.len(),
{
    if input.len() > 0 && input[0] != NEWLINE {
        lemma_record_len_bounds(input.drop_first());
    }
}

/// The text of a record: without its newline, and without a carriage return
/// just before that.
pub open spec fn line_body(raw: Seq<u8>) -> Seq<u8> {
    let unterminated = if raw.len() > 0 && raw.last() == NEWLINE {
        raw.drop_last()
    } else {
        raw
    };
    if unterminated.len() > 0 && unterminated.last() == CARRIAGE_RETURN {
        unterminated.drop_last()
    } else {
        unterminated
    }
}

/// What `String::from_utf8_lossy` makes of `bytes`.
pub uninterp spec fn utf8_lossy(bytes: Seq<u8>) -> Seq<char>;

/// The character that stands for bytes that do not decode as UTF-8.
pub const REPLACEMENT_CHARACTER: char = '\u{FFFD}';

/// What holds of every lossy reading `text` of `bytes`: bytes that are not
/// valid UTF-8 leave a replacement character in it, and each ASCII character
/// in it comes from that very byte of `bytes` (a replacement character and
/// every decoded multi-byte character lie above ASCII).
pub open spec fn lossy_reading(bytes: Seq<u8>, text: Seq<char>) -> bool {
    &&& !valid_utf8(bytes) ==> text.contains(REPLACEMENT_CHARACTER)
    &&& forall|j: int|
        0 <= j < text.len() && (#[trigger] text[j] as u32) < 0x80 ==> bytes.contains(
            (text[j] as u32) as u8,
        )
}

/// The text of `bytes`: their decoding when they are valid UTF-8, their lossy
/// reading otherwise.
pub open spec fn decoded(bytes: Seq<u8>) -> Seq<char> {
    if valid_utf8(bytes) {
        decode_utf8(bytes)
    } else {
        utf8_lossy(bytes)
    }
}

/// The text of `bytes` by `String::from_utf8_lossy`: valid UTF-8 as it
/// decodes, and each sequence that does not decode replaced by U+FFFD.
/// Claimed: the result is the named reading of `bytes`; for valid UTF-8 it is
/// the decoding; otherwise it holds U+FFFD; and an ASCII character in it
/// stands for that same byte of the input. How many replacement characters
/// come out, and where, is not stated here.
#[verifier::external_body]
fn decode_lossy(bytes: &[u8]) -> (text: String)
    ensures
        text@ == utf8_lossy(bytes@),
        valid_utf8(bytes@) ==> text@ == decode_utf8(bytes@),
        lossy_reading(bytes@, text@),
{
    String::from_utf8_lossy(bytes).into_owned()
}

/// What holds of each record of a stream: its text is its lossy reading; it
/// is a JSON object only if it opens one; and a text that opens no JSON object
/// comes out as itself (byte for byte when it is valid UTF-8).
pub open spec fn record_facts(raw: Seq<u8>, sections: Seq<SectionModel>) -> bool {
    let body = line_body(raw);
    &&& lossy_reading(body, decoded(body))
    &&& json_object_members(decoded(body)) is Some ==> opens_object(decoded(body))
    &&& !opens_object(decoded(body)) ==> record_output(raw, sections) == encode_utf8(
        decoded(body),
    ).push(NEWLINE)
    &&& valid_utf8(body) && !opens_object(decode_utf8(body)) ==> record_output(raw, sections)
        == body.push(NEWLINE)
}

/// The output of one record: its formatted line, encoded as UTF-8, and a newline.
pub open spec fn record_output(raw: Seq<u8>, sections: Seq<SectionModel>) -> Seq<u8> {
    encode_utf8(formatted(decoded(line_body(raw)), sections)).push(NEWLINE)
}

/// The records of a stream, in order: each line through its newline, and the
/// unterminated text at the end, if any.
pub open spec fn records(input: Seq<u8>) -> Seq<Seq<u8>>
    decreases input.len(),
{
    if input.len() == 0 {
        Seq::empty()
    } else {
        let n: nat = record_len(input);
        proof {
            lemma_record_len_bounds(input);
        }
        seq![input.take(n as int)] + records(input.skip(n as int))
    }
}

/// The output of a whole stream: each record's output, in order.
pub open spec fn stream_output(input: Seq<u8>, sections: Seq<SectionModel>) -> Seq<u8>
    decreases input.len(),
{
    if input.len() == 0 {
        Seq::empty()
    } else {
        let n: nat = record_len(input);
        proof {
            lemma_record_len_bounds(input);
        }
        record_output(input.take(n as int), sections) + stream_output(
            input.skip(n as int),
            sections,
        )
    }
}

/// Length of the text of `raw`, which is a prefix of it.
fn body_len(raw: &[u8]) -> (n: usize)
    ensures
        n <= raw@.len(),
        raw@.take(n as int) == line_body(raw@),
{
    let mut n: usize = raw.len();
    if n > 0 && raw[n - 1] == NEWLINE {
        n = n - 1;
    }
    if n > 0 && raw[n - 1] == CARRIAGE_RETURN {
        n = n - 1;
    }
    assert(raw@.take(n as int) =~= line_body(raw@));
    n
}

/// Appends the output of the record `raw` (one line as read, with or without
/// its newline) to `output`. A record whose text does not open a JSON object
/// comes out as that text; valid UTF-8 then comes out byte for byte. The text
/// read from invalid UTF-8 carries U+FFFD.
pub fn write_record(raw: &[u8], sections: &[Section], output: &mut Vec<u8>)
    ensures
        final(output)@ == old(output)@ + record_output(raw@, sections_model(sections@)),
        final(output)@ == old(output)@ + encode_utf8(
            formatted(decoded(line_body(raw@)), sections_model(sections@)),
        ).push(NEWLINE),
        !opens_object(decoded(line_body(raw@))) ==> final(output)@ == old(output)@ + encode_utf8(
            decoded(line_body(raw@)),
        ).push(NEWLINE),
        valid_utf8(line_body(raw@)) && !opens_object(decode_utf8(line_body(raw@)))
            ==> final(output)@ == old(output)@ + line_body(raw@).push(NEWLINE),
        lossy_reading(line_body(raw@), decoded(line_body(raw@))),
        json_object_members(decoded(line_body(raw@))) is Some ==> opens_object(
            decoded(line_body(raw@)),
        ),
{
    let n: usize = body_len(raw);
    let body = slice_subrange(raw, 0, n);
    let line = decode_lossy(body);
    let mut text = String::new();
    format_line(line.as_str(), sections, &mut text);
    assert(line@ == decoded(line_body(raw@)));
    assert(text@ == formatted(decoded(line_body(raw@)), sections_model(sections@)));
    let bytes = text.as_str().as_bytes();
    let ghost start = output@;
    for i in 0..bytes.len()
        invariant
            output@ == start + bytes@.take(i as int),
    {
        output.push(bytes[i]);
        assert(bytes@.take(i + 1) =~= bytes@.take(i as int).push(bytes@[i as int]));
    }
    assert(bytes@.take(bytes@.len() as int) =~= bytes@);
    output.push(NEWLINE);
    assert(output@ =~= start + record_output(raw@, sections_model(sections@)));
    proof {
        let body_bytes = line_body(raw@);
        if !opens_object(decoded(body_bytes)) {
            assert(Seq::<char>::empty() + decoded(body_bytes) =~= decoded(body_bytes));
            assert(output@ =~= start + encode_utf8(decoded(body_bytes)).push(NEWLINE));
            if valid_utf8(body_bytes) {
                decode_utf8_encode_utf8(body_bytes);
                assert(output@ =~= start + body_bytes.push(NEWLINE));
            }
        }
    }
}

/// End of the record that starts at `start`: one past its newline, or the end
/// of the input.
fn record_end(input: &[u8], start: usize) -> (end: usize)
    requires
        start < input@.len(),
    ensures
        start < end <= input@.len(),
        end - start == record_len(input@.skip(start as int)),
{
    let mut j: usize = start;
    assert(input@.skip(start as int) =~= input@.skip(j as int));
    while j < input.len() && input[j] != NEWLINE
        invariant
            start <= j <= input@.len(),
            record_len(input@.skip(start as int)) == (j - start) + record_len(
                input@.skip(j as int),
            ),
        decreases input@.len() - j,
    {
        assert(input@.skip(j as int).drop_first() =~= input@.skip(j + 1));
        j = j + 1;
    }
    if j < input.len() {
        j + 1
    } else {
        assert(input@.skip(j as int).len() == 0);
        j
    }
}

/// Formats every record of `input` onto `output`: a record is a line as read,
/// through its newline, or the unterminated text at the end. Each record
/// yields its formatted line and a newline; no input stops the stream. Each
/// record's text is its lossy reading, and a record whose text opens no JSON
/// object comes out as itself (`record_facts`).
pub fn filter(input: &[u8], output: &mut Vec<u8>, config: &Config)
    ensures
        final(output)@ == old(output)@ + stream_output(input@, config@.sections),
        forall|k: int|
            0 <= k < records(input@).len() ==> record_facts(
                #[trigger] records(input@)[k],
                config@.sections,
            ),
{
    let sections = config.sections.as_slice();
    let ghost model = config@.sections;
    let ghost start = output@;
    let mut pos: usize = 0;
    let ghost mut done: Seq<Seq<u8>> = Seq::empty();
    assert(input@.skip(0) =~= input@);
    assert(records(input@) =~= done + records(input@));
    while pos < input.len()
        invariant
            pos <= input@.len(),
            model == sections_model(sections@),
            records(input@) == done + records(input@.skip(pos as int)),
            forall|k: int| 0 <= k < done.len() ==> record_facts(#[trigger] done[k], model),
            start + stream_output(input@, model) == output@ + stream_output(
                input@.skip(pos as int),
                model,
            ),
        decreases input@.len() - pos,
    {
        let end: usize = record_end(input, pos);
        let record = slice_subrange(input, pos, end);
        let ghost rest = input@.skip(pos as int);
        assert(rest.take((end - pos) as int) =~= record@);
        assert(rest.skip((end - pos) as int) =~= input@.skip(end as int));
        let ghost before = output@;
        write_record(record, sections, output);
        proof {
            let body = line_body(record@);
            let produced = output@.subrange(before.len() as int, output@.len() as int);
            assert(produced =~= record_output(record@, model));
            if !opens_object(decoded(body)) {
                assert(produced =~= encode_utf8(decoded(body)).push(NEWLINE));
            }
            if valid_utf8(body) && !opens_object(decode_utf8(body)) {
                assert(produced =~= body.push(NEWLINE));
            }
            assert(record_facts(record@, model));
            assert(records(rest) =~= seq![record@] + records(input@.skip(end as int)));
            assert(done.push(record@) + records(input@.skip(end as int)) =~= done + records(rest));
            done = done.push(record@);
        }
        pos = end;
    }
    assert(input@.skip(pos as int).len() == 0);
    assert(records(input@) =~= done);
}

} // verus!
