//! Properties of line formatting that hold for every configuration and input.
use vstd::prelude::*;

use crate::models::{regex_compiles, regex_matches, AffixModel, ConditionModel, SectionModel};
use crate::service::{
    any_present, decoded, decorate, formatted, member_text, json_object_members, lemma_record_len_bounds, line_body,
    lookup, lossy_reading, opens_object, prefixes, record_len, record_output, records,
    section_text, sections_text, stream_output, suffixes, Fields, CARRIAGE_RETURN, NEWLINE,
};
use crate::text::contains_seq;
use vstd::utf8::{encode_utf8, encode_utf8_decode_utf8, decode_utf8};

verus! {

/// The prefixes of two runs of affixes: the second run's come first.
pub proof fn lemma_prefixes_concat(first: Seq<AffixModel>, second: Seq<AffixModel>, value: Seq<char>)
    ensures
        prefixes(first + second, value) == prefixes(second, value) + prefixes(first, value),
    decreases first.len(),
{
    if first.len() == 0 {
        assert(first + second =~= second);
    } else {
        assert((first + second).drop_first() =~= first.drop_first() + second);
        lemma_prefixes_concat(first.drop_first(), second, value);
        assert((first + second)[0] == first[0]);
    }
}

/// The suffixes of two runs of affixes: the first run's come first.
pub proof fn lemma_suffixes_concat(first: Seq<AffixModel>, second: Seq<AffixModel>, value: Seq<char>)
    ensures
        suffixes(first + second, value) == suffixes(first, value) + suffixes(second, value),
    decreases second.len(),
{
    if second.len() == 0 {
        assert(first + second =~= first);
    } else {
        assert((first + second).drop_last() =~= first + second.drop_last());
        lemma_suffixes_concat(first, second.drop_last(), value);
        assert((first + second).last() == second.last());
    }
}

/// A single affix puts its own prefix and suffix around the value.
pub proof fn lemma_single_affix(affix: AffixModel, value: Seq<char>)
    ensures
        prefixes(seq![affix], value) == affix.prefix_for(value),
        suffixes(seq![affix], value) == affix.suffix_for(value),
{
    let single = seq![affix];
    assert(single.drop_first() =~= Seq::<AffixModel>::empty());
    assert(single.drop_last() =~= Seq::<AffixModel>::empty());
    assert(prefixes(Seq::<AffixModel>::empty(), value) == Seq::<char>::empty());
    assert(suffixes(Seq::<AffixModel>::empty(), value) == Seq::<char>::empty());
    assert(prefixes(single, value) =~= affix.prefix_for(value));
    assert(suffixes(single, value) =~= affix.suffix_for(value));
}

/// Affixes nest: an affix declared after others wraps what they produce, its
/// prefix outside theirs and its suffix outside theirs.
pub proof fn law_later_affix_wraps_earlier(
    affixes: Seq<AffixModel>,
    affix: AffixModel,
    value: Seq<char>,
)
    ensures
        decorate(affixes.push(affix), value) == affix.prefix_for(value) + decorate(affixes, value)
            + affix.suffix_for(value),
{
    let single = seq![affix];
    assert(affixes.push(affix) =~= affixes + single);
    lemma_prefixes_concat(affixes, single, value);
    lemma_suffixes_concat(affixes, single, value);
    lemma_single_affix(affix, value);
}

/// An affix whose condition does not hold for the value contributes nothing.
pub proof fn law_inapplicable_affix_contributes_nothing(
    before: Seq<AffixModel>,
    affix: AffixModel,
    after: Seq<AffixModel>,
    value: Seq<char>,
)
    requires
        !affix.applies(value),
    ensures
        decorate(before.push(affix) + after, value) == decorate(before + after, value),
{
    let single = seq![affix];
    assert(before.push(affix) =~= before + single);
    lemma_prefixes_concat(before + single, after, value);
    lemma_prefixes_concat(before, single, value);
    lemma_prefixes_concat(before, after, value);
    lemma_suffixes_concat(before + single, after, value);
    lemma_suffixes_concat(before, single, value);
    lemma_suffixes_concat(before, after, value);
    lemma_single_affix(affix, value);
    assert(prefixes(before + single, value) =~= prefixes(before, value));
    assert(suffixes(before + single, value) =~= suffixes(before, value));
}

/// Sections render in declaration order: the text of two runs of sections
/// is the first run's text followed by the second's.
pub proof fn law_sections_in_order(fields: Fields, first: Seq<SectionModel>, second: Seq<SectionModel>)
    ensures
        sections_text(fields, first + second) == sections_text(fields, first) + sections_text(
            fields,
            second,
        ),
    decreases second.len(),
{
    if second.len() == 0 {
        assert(first + second =~= first);
    } else {
        assert((first + second).drop_last() =~= first + second.drop_last());
        law_sections_in_order(fields, first, second.drop_last());
        assert((first + second).last() == second.last());
    }
}

/// A section whose attribute the record lacks is skipped together with its
/// affixes; the sections around it render as if it were not there.
pub proof fn law_absent_section_is_skipped(
    fields: Fields,
    before: Seq<SectionModel>,
    section: SectionModel,
    after: Seq<SectionModel>,
)
    requires
        lookup(fields, section.attribute) is None,
    ensures
        sections_text(fields, before.push(section) + after) == sections_text(
            fields,
            before + after,
        ),
{
    law_sections_in_order(fields, before.push(section), after);
    law_sections_in_order(fields, before, after);
    assert(before.push(section).drop_last() =~= before);
    assert(section_text(fields, section) =~= Seq::<char>::empty());
    assert(sections_text(fields, before.push(section)) =~= sections_text(fields, before));
}

/// Members that no section names are ignored: two records that agree on every
/// configured attribute give the same text, and match the same sections.
pub proof fn law_only_configured_attributes_matter(
    fields: Fields,
    other: Fields,
    sections: Seq<SectionModel>,
)
    requires
        forall|i: int|
            0 <= i < sections.len() ==> lookup(fields, #[trigger] sections[i].attribute) == lookup(
                other,
                sections[i].attribute,
            ),
    ensures
        sections_text(fields, sections) == sections_text(other, sections),
        any_present(fields, sections) == any_present(other, sections),
    decreases sections.len(),
{
    if sections.len() > 0 {
        let shorter = sections.drop_last();
        assert forall|i: int| 0 <= i < shorter.len() implies lookup(
            fields,
            #[trigger] shorter[i].attribute,
        ) == lookup(other, shorter[i].attribute) by {
            assert(shorter[i] == sections[i]);
        }
        law_only_configured_attributes_matter(fields, other, shorter);
        assert(sections.last() == sections[sections.len() - 1]);
    }
    if any_present(fields, sections) {
        let i: int = choose|i: int|
            0 <= i < sections.len() && #[trigger] lookup(fields, sections[i].attribute) is Some;
        assert(lookup(other, sections[i].attribute) is Some);
    }
    if any_present(other, sections) {
        let i: int = choose|i: int|
            0 <= i < sections.len() && #[trigger] lookup(other, sections[i].attribute) is Some;
        assert(lookup(fields, sections[i].attribute) is Some);
    }
}

/// A line that is not a JSON object passes through verbatim.
pub proof fn law_non_object_passes_through(line: Seq<char>, sections: Seq<SectionModel>)
    requires
        json_object_members(line) is None,
    ensures
        formatted(line, sections) == line,
{
    assert(Seq::<char>::empty() + line =~= line);
}

/// A JSON object that has none of the configured attributes passes through
/// verbatim; in particular, with no sections every line passes through.
pub proof fn law_unmatched_object_passes_through(line: Seq<char>, sections: Seq<SectionModel>)
    requires
        json_object_members(line) matches Some(fields) && !any_present(fields, sections),
    ensures
        formatted(line, sections) == line,
{
}

/// With no sections configured, every line passes through verbatim.
pub proof fn law_no_sections_pass_everything_through(line: Seq<char>)
    ensures
        formatted(line, Seq::empty()) == line,
{
    assert(Seq::<char>::empty() + line =~= line);
}

/// A JSON object that has some configured attribute becomes the texts of its
/// sections, in order, and nothing else.
pub proof fn law_matched_object_is_rebuilt(line: Seq<char>, sections: Seq<SectionModel>)
    requires
        json_object_members(line) matches Some(fields) && any_present(fields, sections),
    ensures
        formatted(line, sections) == sections_text(json_object_members(line)->0, sections),
{
    assert(Seq::<char>::empty() + sections_text(json_object_members(line)->0, sections)
        =~= sections_text(json_object_members(line)->0, sections));
}

/// `Always` holds for every value.
pub proof fn law_always_holds(value: Seq<char>)
    ensures
        ConditionModel::Always.holds(value),
{
}

/// `Equals` holds exactly for the expected text.
pub proof fn law_equals_is_exact(expected: Seq<char>, value: Seq<char>)
    ensures
        ConditionModel::Equals(expected).holds(value) <==> value == expected,
{
}

/// `Contains` with an empty needle holds for every value, the empty one too.
pub proof fn law_empty_needle_matches_everything(value: Seq<char>)
    ensures
        ConditionModel::Contains(Seq::empty()).holds(value),
{
    let empty = Seq::<char>::empty();
    assert(value.subrange(0, 0int + empty.len()) =~= empty);
}

/// `Contains` holds for a value that contains the needle at any position.
pub proof fn law_contains_finds_any_position(
    before: Seq<char>,
    needle: Seq<char>,
    after: Seq<char>,
)
    ensures
        ConditionModel::Contains(needle).holds(before + needle + after),
{
    let value = before + needle + after;
    assert(value.subrange(before.len() as int, (before.len() + needle.len()) as int) =~= needle);
}

/// The first record of an input that has a newline ends at or before it,
/// whatever follows the input.
pub proof fn lemma_record_len_of_prefix(input: Seq<u8>, more: Seq<u8>)
    requires
        exists|k: int| 0 <= k < input.len() && input[k] == NEWLINE,
    ensures
        record_len(input + more) == record_len(input),
    decreases input.len(),
{
    if input[0] != NEWLINE {
        let k: int = choose|k: int| 0 <= k < input.len() && input[k] == NEWLINE;
        assert(input.drop_first()[k - 1] == NEWLINE);
        assert((input + more).drop_first() =~= input.drop_first() + more);
        lemma_record_len_of_prefix(input.drop_first(), more);
    }
}

/// The first record of `line + more` is `line`, when `line` holds no newline
/// before its last byte and either ends in one or is all there is.
pub proof fn lemma_record_len_of_line(line: Seq<u8>, more: Seq<u8>)
    requires
        line.len() > 0,
        forall|k: int| 0 <= k < line.len() - 1 ==> line[k] != NEWLINE,
        line.last() == NEWLINE || more.len() == 0,
    ensures
        record_len(line + more) == line.len(),
    decreases line.len(),
{
    if line.len() == 1 {
        assert((line + more)[0] == line[0]);
        if line[0] != NEWLINE {
            assert(line + more =~= line);
            assert(record_len(line.drop_first()) == 0);
        }
    } else {
        assert(line[0] != NEWLINE);
        assert((line + more)[0] == line[0]);
        assert((line + more).drop_first() =~= line.drop_first() + more);
        lemma_record_len_of_line(line.drop_first(), more);
    }
}

/// Streams compose: the output of two pieces of input, the first ending at a
/// line break, is the output of the first followed by that of the second.
pub proof fn law_stream_concat(first: Seq<u8>, second: Seq<u8>, sections: Seq<SectionModel>)
    requires
        first.len() == 0 || first.last() == NEWLINE,
    ensures
        stream_output(first + second, sections) == stream_output(first, sections)
            + stream_output(second, sections),
    decreases first.len(),
{
    if first.len() == 0 {
        assert(first + second =~= second);
    } else {
        let whole = first + second;
        let n: nat = record_len(first);
        lemma_record_len_bounds(first);
        assert(whole[first.len() - 1] == NEWLINE);
        lemma_record_len_of_prefix(first, second);
        lemma_record_len_bounds(whole);
        assert(whole.take(n as int) =~= first.take(n as int));
        assert(whole.skip(n as int) =~= first.skip(n as int) + second);
        let rest = first.skip(n as int);
        if rest.len() > 0 {
            assert(rest.last() == first.last());
        }
        law_stream_concat(rest, second, sections);
    }
}

/// Record by record: a line as read (no newline before its last byte, and a
/// newline at its end unless nothing follows) yields its own output, then the
/// rest of the stream yields the rest.
pub proof fn law_stream_line_by_line(line: Seq<u8>, more: Seq<u8>, sections: Seq<SectionModel>)
    requires
        line.len() > 0,
        forall|k: int| 0 <= k < line.len() - 1 ==> line[k] != NEWLINE,
        line.last() == NEWLINE || more.len() == 0,
    ensures
        stream_output(line + more, sections) == record_output(line, sections) + stream_output(
            more,
            sections,
        ),
{
    let whole = line + more;
    lemma_record_len_of_line(line, more);
    assert(whole.take(line.len() as int) =~= line);
    assert(whole.skip(line.len() as int) =~= more);
}

/// Every record ends its output with a newline: empty input gives empty
/// output, and any other input gives output that ends in a newline, a final
/// line without a newline included.
pub proof fn law_output_ends_lines(input: Seq<u8>, sections: Seq<SectionModel>)
    ensures
        input.len() == 0 ==> stream_output(input, sections).len() == 0,
        input.len() > 0 ==> stream_output(input, sections).len() > 0 && stream_output(
            input,
            sections,
        ).last() == NEWLINE,
    decreases input.len(),
{
    if input.len() > 0 {
        let n: nat = record_len(input);
        lemma_record_len_bounds(input);
        let rest = input.skip(n as int);
        law_output_ends_lines(rest, sections);
        let head = record_output(input.take(n as int), sections);
        assert(head.last() == NEWLINE);
    }
}

/// A line's terminator does not change its output: the same text with no
/// terminator, with a newline, or with a carriage return and a newline, gives
/// the same output.
pub proof fn law_terminators_are_stripped(text: Seq<u8>, sections: Seq<SectionModel>)
    requires
        text.len() == 0 || (text.last() != NEWLINE && text.last() != CARRIAGE_RETURN),
    ensures
        record_output(text.push(NEWLINE), sections) == record_output(text, sections),
        record_output(text.push(CARRIAGE_RETURN).push(NEWLINE), sections) == record_output(
            text,
            sections,
        ),
{
    assert(line_body(text) =~= text);
    assert(text.push(NEWLINE).drop_last() =~= text);
    assert(line_body(text.push(NEWLINE)) =~= text);
    assert(text.push(CARRIAGE_RETURN).push(NEWLINE).drop_last() =~= text.push(CARRIAGE_RETURN));
    assert(text.push(CARRIAGE_RETURN).drop_last() =~= text);
    assert(line_body(text.push(CARRIAGE_RETURN).push(NEWLINE)) =~= text);
}

/// The first record of an input holds no newline but, possibly, its last byte.
pub proof fn lemma_first_record_has_one_newline(input: Seq<u8>)
    requires
        input.len() > 0,
    ensures
        forall|j: int|
            0 <= j < record_len(input) - 1 ==> #[trigger] input.take(record_len(input) as int)[j]
                != NEWLINE,
        input.take(record_len(input) as int).last() == NEWLINE || forall|j: int|
            0 <= j < record_len(input) ==> #[trigger] input.take(record_len(input) as int)[j]
                != NEWLINE,
    decreases input.len(),
{
    lemma_record_len_bounds(input);
    if input[0] != NEWLINE && input.len() > 1 {
        let rest = input.drop_first();
        lemma_first_record_has_one_newline(rest);
        lemma_record_len_bounds(rest);
        let n: int = record_len(input) as int;
        assert forall|j: int| 0 < j < n implies #[trigger] input.take(n)[j] == rest.take(n - 1)[j
            - 1] by {}
    } else if input[0] != NEWLINE {
        assert(record_len(input.drop_first()) == 0);
    }
}

/// The text of every record holds no newline: the stream's lines are exactly
/// its records.
pub proof fn law_record_text_holds_no_newline(input: Seq<u8>, k: int)
    requires
        0 <= k < records(input).len(),
    ensures
        !line_body(records(input)[k]).contains(NEWLINE),
    decreases input.len(),
{
    let n: nat = record_len(input);
    lemma_record_len_bounds(input);
    if k == 0 {
        let record = input.take(n as int);
        assert(records(input)[0] == record);
        lemma_first_record_has_one_newline(input);
        let body = line_body(record);
        assert forall|j: int| 0 <= j < body.len() implies #[trigger] body[j] != NEWLINE by {
            assert(body[j] == record[j]);
        }
    } else {
        assert(records(input)[k] == records(input.skip(n as int))[k - 1]);
        law_record_text_holds_no_newline(input.skip(n as int), k - 1);
    }
}

/// Text read from bytes with no `{` cannot open a JSON object, so such a
/// record passes through.
pub proof fn law_braceless_text_is_no_object(bytes: Seq<u8>, text: Seq<char>)
    requires
        lossy_reading(bytes, text),
        !bytes.contains(0x7bu8),
    ensures
        !opens_object(text),
{
    if opens_object(text) {
        let i: int = choose|i: int|
            0 <= i < text.len() && #[trigger] text[i] == '{' && forall|j: int|
                0 <= j < i ==> crate::service::is_json_whitespace(#[trigger] text[j]);
        assert((text[i] as u32) < 0x80);
        assert(((text[i] as u32) as u8) == 0x7bu8);
    }
}

/// Text read from bytes with no newline holds no newline: a record stays one
/// line of output, invalid bytes and all.
pub proof fn law_lossy_text_stays_one_line(bytes: Seq<u8>, text: Seq<char>)
    requires
        lossy_reading(bytes, text),
        !bytes.contains(NEWLINE),
    ensures
        !text.contains('\n'),
{
    if text.contains('\n') {
        let j: int = choose|j: int| 0 <= j < text.len() && text[j] == '\n';
        assert((text[j] as u32) < 0x80);
        assert(((text[j] as u32) as u8) == NEWLINE);
    }
}

/// A section without affixes shows its attribute's whole text, whatever its
/// length.
pub proof fn law_bare_section_shows_whole_value(
    fields: Fields,
    section: SectionModel,
    value: Seq<char>,
)
    requires
        lookup(fields, section.attribute) == Some(value),
        section.affixes.len() == 0,
    ensures
        section_text(fields, section) == value,
{
    assert(prefixes(section.affixes, value) == Seq::<char>::empty());
    assert(suffixes(section.affixes, value) == Seq::<char>::empty());
    assert(Seq::<char>::empty() + value + Seq::<char>::empty() =~= value);
}

/// A present attribute's whole text sits, untouched, between the prefixes and
/// the suffixes of its section's affixes.
pub proof fn law_value_sits_whole_between_affixes(
    fields: Fields,
    section: SectionModel,
    value: Seq<char>,
)
    requires
        lookup(fields, section.attribute) == Some(value),
    ensures
        section_text(fields, section) == prefixes(section.affixes, value) + value + suffixes(
            section.affixes,
            value,
        ),
        section_text(fields, section).subrange(
            prefixes(section.affixes, value).len() as int,
            (prefixes(section.affixes, value).len() + value.len()) as int,
        ) == value,
{
    let p = prefixes(section.affixes, value);
    let whole = section_text(fields, section);
    assert(whole.subrange(p.len() as int, (p.len() + value.len()) as int) =~= value);
}

/// One affix puts its prefix before and its suffix after the whole value when
/// its condition holds, and leaves the value alone otherwise.
pub proof fn law_single_affix_wraps_whole_value(affix: AffixModel, value: Seq<char>)
    ensures
        affix.applies(value) ==> decorate(seq![affix], value) == (match affix.prefix {
            Some(p) => p,
            None => Seq::<char>::empty(),
        }) + value + (match affix.suffix {
            Some(s) => s,
            None => Seq::<char>::empty(),
        }),
        !affix.applies(value) ==> decorate(seq![affix], value) == value,
{
    lemma_single_affix(affix, value);
    assert(Seq::<char>::empty() + value + Seq::<char>::empty() =~= value);
}

/// A member is found exactly when some member has the key; what is found is
/// the text of the first member with that key.
pub proof fn law_lookup_finds_first_member(fields: Fields, key: Seq<char>)
    ensures
        (exists|i: int| 0 <= i < fields.len() && #[trigger] fields[i].0 == key) <==> lookup(
            fields,
            key,
        ) is Some,
        lookup(fields, key) matches Some(t) ==> exists|i: int|
            0 <= i < fields.len() && #[trigger] fields[i].0 == key && member_text(fields[i]) == t
                && forall|j: int| 0 <= j < i ==> fields[j].0 != key,
    decreases fields.len(),
{
    if fields.len() > 0 {
        let rest = fields.drop_first();
        law_lookup_finds_first_member(rest, key);
        if fields[0].0 != key {
            if exists|i: int| 0 <= i < fields.len() && #[trigger] fields[i].0 == key {
                let i: int = choose|i: int| 0 <= i < fields.len() && #[trigger] fields[i].0 == key;
                assert(rest[i - 1].0 == key);
            }
            if exists|i: int| 0 <= i < rest.len() && #[trigger] rest[i].0 == key {
                let i: int = choose|i: int| 0 <= i < rest.len() && #[trigger] rest[i].0 == key;
                assert(fields[i + 1].0 == key);
            }
            if lookup(fields, key) is Some {
                let i: int = choose|i: int|
                    0 <= i < rest.len() && #[trigger] rest[i].0 == key && member_text(rest[i])
                        == lookup(fields, key)->0 && forall|j: int| 0 <= j < i ==> rest[j].0 != key;
                assert(fields[i + 1] == rest[i]);
                assert forall|j: int| 0 <= j < i + 1 implies fields[j].0 != key by {
                    if j > 0 {
                        assert(fields[j] == rest[j - 1]);
                    }
                }
            }
        }
    }
}

/// A JSON string member stands for its own text, any other member for its
/// compact rendering.
pub proof fn law_member_text(member: (Seq<char>, Option<Seq<char>>, Seq<char>))
    ensures
        member.1 matches Some(t) ==> member_text(member) == t,
        member.1 is None ==> member_text(member) == member.2,
{
}

/// A record is matched when any section, wherever it stands, finds its
/// attribute: `any_present` holds exactly when some section's lookup succeeds.
pub proof fn law_any_present_is_some_lookup(fields: Fields, sections: Seq<SectionModel>)
    ensures
        any_present(fields, sections) <==> exists|i: int|
            0 <= i < sections.len() && #[trigger] lookup(fields, sections[i].attribute) is Some,
{
}

/// Matching composes: two runs of sections match a record when either does.
pub proof fn law_any_present_concat(
    fields: Fields,
    first: Seq<SectionModel>,
    second: Seq<SectionModel>,
)
    ensures
        any_present(fields, first + second) == (any_present(fields, first) || any_present(
            fields,
            second,
        )),
{
    let whole = first + second;
    if any_present(fields, whole) {
        let i: int = choose|i: int|
            0 <= i < whole.len() && #[trigger] lookup(fields, whole[i].attribute) is Some;
        if i < first.len() {
            assert(whole[i] == first[i]);
        } else {
            assert(whole[i] == second[i - first.len()]);
        }
    }
    if any_present(fields, first) {
        let i: int = choose|i: int|
            0 <= i < first.len() && #[trigger] lookup(fields, first[i].attribute) is Some;
        assert(whole[i] == first[i]);
    }
    if any_present(fields, second) {
        let i: int = choose|i: int|
            0 <= i < second.len() && #[trigger] lookup(fields, second[i].attribute) is Some;
        assert(whole[i + first.len()] == second[i]);
    }
}

/// A JSON object with any configured attribute, at any position among the
/// sections, is rebuilt from the sections.
pub proof fn law_object_with_some_attribute_is_rebuilt(line: Seq<char>, sections: Seq<SectionModel>)
    requires
        json_object_members(line) is Some,
        exists|i: int|
            0 <= i < sections.len() && #[trigger] lookup(
                json_object_members(line)->0,
                sections[i].attribute,
            ) is Some,
    ensures
        formatted(line, sections) == sections_text(json_object_members(line)->0, sections),
{
    let f = json_object_members(line)->0;
    assert(any_present(f, sections));
    assert(Seq::<char>::empty() + sections_text(f, sections) =~= sections_text(f, sections));
}

/// A record's output is its whole formatted text, encoded as UTF-8, and one
/// newline: nothing of the formatted text, newlines inside it included, is
/// lost, and the output decodes back to it.
pub proof fn law_record_output_is_whole_formatted_text(raw: Seq<u8>, sections: Seq<SectionModel>)
    ensures
        record_output(raw, sections).len() > 0,
        record_output(raw, sections).last() == NEWLINE,
        record_output(raw, sections).drop_last() == encode_utf8(
            formatted(decoded(line_body(raw)), sections),
        ),
        decode_utf8(record_output(raw, sections).drop_last()) == formatted(
            decoded(line_body(raw)),
            sections,
        ),
{
    let text = formatted(decoded(line_body(raw)), sections);
    assert(record_output(raw, sections).drop_last() =~= encode_utf8(text));
    encode_utf8_decode_utf8(text);
}

/// A regular-expression condition is decided on the whole value, by
/// `regex_lite`: it holds exactly when the pattern compiles and matches the
/// full text.
pub proof fn law_regex_decided_on_whole_value(pattern: Seq<char>, value: Seq<char>)
    ensures
        ConditionModel::Regex(pattern).holds(value) == (regex_compiles(pattern) && regex_matches(
            pattern,
            value,
        )),
{
}

} // verus!
