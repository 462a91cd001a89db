//! The configuration model: sections pull one attribute out of a log record
//! and decorate it with the affixes whose condition holds for its text.
//!
//! A `Condition::Regex` carries its pattern as text; it is matched with
//! `regex_lite`, and a pattern that `regex_lite` does not accept matches
//! nothing.
use vstd::prelude::*;

use crate::text::{chars_of, contains_chars, contains_seq};

verus! {

/// When an affix applies to a value.
#[derive(Debug, Clone)]
pub enum Condition {
    Always,
    Equals(String),
    Contains(String),
    Regex(String),
}

/// A prefix and a suffix that wrap a value when `condition` holds for it.
#[derive(Debug, Clone, PartialEq, Eq)]
pub struct Affix {
    pub condition: Condition,
    pub prefix: Option<String>,
    pub suffix: Option<String>,
}

/// One piece of the formatted line: the record's `attribute`, decorated by `affixes`.
#[derive(Debug, Clone, PartialEq, Eq)]
pub struct Section {
    pub name: String,
    pub attribute: String,
    pub affixes: Vec<Affix>,
}

/// The sections of a formatted line, in output order.
#[derive(Debug, Clone, PartialEq, Eq)]
pub struct Config {
    pub sections: Vec<Section>,
}

/// Mathematical model of a [`Condition`].
pub enum ConditionModel {
    Always,
    Equals(Seq<char>),
    Contains(Seq<char>),
    Regex(Seq<char>),
}

/// Mathematical model of an [`Affix`].
pub struct AffixModel {
    pub condition: ConditionModel,
    pub prefix: Option<Seq<char>>,
    pub suffix: Option<Seq<char>>,
}

/// Mathematical model of a [`Section`].
pub struct SectionModel {
    pub name: Seq<char>,
    pub attribute: Seq<char>,
    pub affixes: Seq<AffixModel>,
}

/// Mathematical model of a [`Config`].
pub struct ConfigModel {
    pub sections: Seq<SectionModel>,
}

impl View for Condition {
    type V = ConditionModel;

    open spec fn view(&self) -> ConditionModel {
        match self {
            Condition::Always => ConditionModel::Always,
            Condition::Equals(s) => ConditionModel::Equals(s@),
            Condition::Contains(s) => ConditionModel::Contains(s@),
            Condition::Regex(s) => ConditionModel::Regex(s@),
        }
    }
}

impl PartialEq for Condition {
    /// Two conditions are equal when they are the same kind with the same text.
    fn eq(&self, other: &Self) -> (r: bool) {
        match (self, other) {
            (Condition::Always, Condition::Always) => true,
            (Condition::Equals(a), Condition::Equals(b)) => *a == *b,
            (Condition::Contains(a), Condition::Contains(b)) => *a == *b,
            (Condition::Regex(a), Condition::Regex(b)) => *a == *b,
            _ => false,
        }
    }
}

impl vstd::std_specs::cmp::PartialEqSpecImpl for Condition {
    open spec fn obeys_eq_spec() -> bool {
        true
    }

    open spec fn eq_spec(&self, other: &Condition) -> bool {
        self@ == other@
    }
}

impl Eq for Condition {}

impl View for Affix {
    type V = AffixModel;

    open spec fn view(&self) -> AffixModel {
        AffixModel {
            condition: self.condition@,
            prefix: self.prefix.deep_view(),
            suffix: self.suffix.deep_view(),
        }
    }
}

/// The models of a sequence of affixes.
pub open spec fn affixes_model(affixes: Seq<Affix>) -> Seq<AffixModel> {
    affixes.map_values(|a: Affix| a@)
}

impl View for Section {
    type V = SectionModel;

    open spec fn view(&self) -> SectionModel {
        SectionModel {
            name: self.name@,
            attribute: self.attribute@,
            affixes: affixes_model(self.affixes@),
        }
    }
}

/// The models of a sequence of sections.
pub open spec fn sections_model(sections: Seq<Section>) -> Seq<SectionModel> {
    sections.map_values(|s: Section| s@)
}

impl View for Config {
    type V = ConfigModel;

    open spec fn view(&self) -> ConfigModel {
        ConfigModel { sections: sections_model(self.sections@) }
    }
}

/// Whether `regex_lite` accepts `pattern` (what `regex_lite::Regex::new` decides).
pub uninterp spec fn regex_compiles(pattern: Seq<char>) -> bool;

/// What `regex_lite::Regex::is_match` answers for `haystack`, on the regex that
/// `regex_lite::Regex::new` builds from `pattern`.
pub uninterp spec fn regex_matches(pattern: Seq<char>, haystack: Seq<char>) -> bool;

impl ConditionModel {
    /// Whether the condition holds for the text `value`.
    pub open spec fn holds(self, value: Seq<char>) -> bool {
        match self {
            ConditionModel::Always => true,
            ConditionModel::Equals(expected) => value == expected,
            ConditionModel::Contains(needle) => contains_seq(value, needle),
            ConditionModel::Regex(pattern) => regex_compiles(pattern) && regex_matches(
                pattern,
                value,
            ),
        }
    }
}

impl AffixModel {
    /// Whether the affix applies to `value`.
    pub open spec fn applies(self, value: Seq<char>) -> bool {
        self.condition.holds(value)
    }

    /// What the affix puts before `value`: its prefix if it applies, else nothing.
    pub open spec fn prefix_for(self, value: Seq<char>) -> Seq<char> {
        if self.applies(value) {
            match self.prefix {
                Some(p) => p,
                None => Seq::empty(),
            }
        } else {
            Seq::empty()
        }
    }

    /// What the affix puts after `value`: its suffix if it applies, else nothing.
    pub open spec fn suffix_for(self, value: Seq<char>) -> Seq<char> {
        if self.applies(value) {
            match self.suffix {
                Some(s) => s,
                None => Seq::empty(),
            }
        } else {
            Seq::empty()
        }
    }
}

/// Matches `haystack` against `pattern` with `regex_lite`: compiles the pattern
/// with `regex_lite::Regex::new` and, when that succeeds, asks
/// `Regex::is_match`. Claimed: the answer is `Some` exactly when the pattern
/// compiles, and then it is the named match result for these two texts; what
/// `is_match` decides is left to `regex_lite` and not stated here.
#[verifier::external_body]
fn regex_is_match(pattern: &str, haystack: &str) -> (r: Option<bool>)
    ensures
        r is Some <==> regex_compiles(pattern@),
        r matches Some(b) ==> b == regex_matches(pattern@, haystack@),
{
    match regex_lite::Regex::new(pattern) {
        Ok(regex) => Some(regex.is_match(haystack)),
        Err(_) => None,
    }
}

impl Affix {
    /// Whether this affix's condition holds for `value`.
    #[must_use]
    pub fn applies_to(&self, value: &str) -> (r: bool)
        ensures
            r == self@.applies(value@),
            self.condition is Always ==> r,
            self.condition matches Condition::Equals(expected) ==> r == (value@ == expected@),
            self.condition matches Condition::Contains(needle) ==> r == contains_seq(
                value@,
                needle@,
            ),
            self.condition matches Condition::Regex(pattern) ==> r == (regex_compiles(pattern@)
                && regex_matches(pattern@, value@)),
    {
        match &self.condition {
            Condition::Always => true,
            Condition::Equals(expected) => value.to_owned() == *expected,
            Condition::Contains(needle) => {
                let haystack = chars_of(value);
                let needle = chars_of(needle.as_str());
                contains_chars(&haystack, &needle)
            },
            Condition::Regex(pattern) => match regex_is_match(pattern.as_str(), value) {
                Some(found) => found,
                None => false,
            },
        }
    }
}

} // verus!
