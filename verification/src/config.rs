//! Style records from a JSON configuration.
//!
//! The configuration is one JSON object with a member for each category:
//! `dir`, `file` and `readonly`. Each holds the fields of a style record.
//! Whatever is missing, or is not of the expected JSON type, counts as
//! not configured; only text that is too long or is not JSON at all is
//! an error.

use vstd::prelude::*;
use crate::color::{ColorSpec, color_of, conv_color, is_color_spec, is_valid_color};
use crate::style::{Attributes, Config, StyleRecord};

verus! {

/// `json::JsonValue`, a parsed JSON value; nothing of its inside is known
/// here.
#[verifier::external_type_specification]
#[verifier::external_body]
pub struct ExJsonValue(json::JsonValue);

/// `json::Error`, why a text is not JSON; nothing of its inside is known
/// here.
#[verifier::external_type_specification]
#[verifier::external_body]
pub struct ExJsonError(json::Error);

/// The JSON value that `text` writes, if it is well-formed JSON.
pub uninterp spec fn json_document(text: Seq<char>) -> Option<json::JsonValue>;

/// The member of a JSON value under a key; the null value if the value is
/// not an object or has no such member.
pub uninterp spec fn json_member_of(value: json::JsonValue, key: Seq<char>) -> json::JsonValue;

/// The text of a JSON value, if it is a string.
pub uninterp spec fn json_text_of(value: json::JsonValue) -> Option<Seq<char>>;

/// The truth value of a JSON value, if it is a boolean.
pub uninterp spec fn json_flag_of(value: json::JsonValue) -> Option<bool>;

/// A configuration that was read.
#[derive(Clone, Debug, PartialEq, Eq)]
pub struct LoadedConfig {
    /// The style records of the three categories.
    pub config: Config,
    /// The configured colours that are neither a colour name nor three
    /// channel values, as they were written. Each was read as its
    /// channels degrade: a wholly malformed colour as black.
    pub malformed_colors: Vec<String>,
}

/// The greatest number of characters that a configuration may hold.
/// Longer text is refused before it is parsed: the parser counts the
/// digits of a fraction in sixteen bits, and within this length no
/// fraction has more digits than that count can take.
pub const MAX_CONFIG_LENGTH: usize = 32768;

/// A configuration that could not be read.
#[derive(Clone, Debug, PartialEq, Eq)]
pub enum ConfigError {
    /// The text holds more than `MAX_CONFIG_LENGTH` characters.
    TooLong,
    /// The text is not JSON.
    Malformed {
        /// What the JSON parser said of the text.
        message: String,
    },
}

/// `json::parse`: reads a JSON text.
///
/// Trusted: the outcome is a fixed property of the text. The text may
/// not be longer than `MAX_CONFIG_LENGTH` characters: on a fraction of
/// more digits the parser's digit count overflows.
#[verifier::external_body]
fn json_parse(text: &str) -> (r: Result<json::JsonValue, json::Error>)
    requires
        text@.len() <= MAX_CONFIG_LENGTH,
    ensures
        match r {
            Ok(value) => json_document(text@) == Some(value),
            Err(_) => json_document(text@) is None,
        },
{
    json::parse(text)
}

/// Indexing a `json::JsonValue` by a key.
///
/// Trusted: the member found is a fixed property of the value and the key.
#[verifier::external_body]
fn json_member<'a>(value: &'a json::JsonValue, key: &str) -> (member: &'a json::JsonValue)
    ensures
        *member == json_member_of(*value, key@),
{
    &value[key]
}

/// `json::JsonValue::as_str`, with the text copied.
///
/// Trusted: the answer is a fixed property of the value.
#[verifier::external_body]
fn json_text(value: &json::JsonValue) -> (text: Option<String>)
    ensures
        match text {
            Some(t) => json_text_of(*value) == Some(t@),
            None => json_text_of(*value) is None,
        },
{
    value.as_str().map(String::from)
}

/// `json::JsonValue::as_bool`.
///
/// Trusted: the answer is a fixed property of the value.
#[verifier::external_body]
fn json_flag(value: &json::JsonValue) -> (flag: Option<bool>)
    ensures
        flag == json_flag_of(*value),
{
    value.as_bool()
}

/// The `Display` text of a `json::Error`. Trusted, with nothing claimed.
#[verifier::external_body]
fn json_error_text(error: &json::Error) -> String {
    error.to_string()
}

/// The colour that a configured text stands for, if one is configured.
pub open spec fn color_setting(text: Option<Seq<char>>) -> Option<ColorSpec> {
    match text {
        Some(t) => Some(color_of(t)),
        None => None,
    }
}

/// Whether an attribute is switched on: only if it is configured as true.
pub open spec fn flag_setting(flag: Option<bool>) -> bool {
    match flag {
        Some(b) => b,
        None => false,
    }
}

/// The colour under `key` in a section of the configuration.
pub open spec fn color_field(section: json::JsonValue, key: Seq<char>) -> Option<ColorSpec> {
    color_setting(json_text_of(json_member_of(section, key)))
}

/// The attribute under `key` in a section of the configuration.
pub open spec fn flag_field(section: json::JsonValue, key: Seq<char>) -> bool {
    flag_setting(json_flag_of(json_member_of(section, key)))
}

/// The style record that a section of the configuration describes.
pub open spec fn record_from(section: json::JsonValue) -> StyleRecord {
    StyleRecord {
        color: color_field(section, "color"@),
        attributes: Attributes {
            bold: flag_field(section, "bold"@),
            underline: flag_field(section, "underline"@),
            reversed: flag_field(section, "reversed"@),
            italic: flag_field(section, "italic"@),
            blink: flag_field(section, "blink"@),
            hidden: flag_field(section, "hidden"@),
            strikethrough: flag_field(section, "strikethrough"@),
        },
        readonly_color: color_field(section, "readonly_color"@),
        readonly_background_color: color_field(section, "readonly_background_color"@),
    }
}

/// The style records that a configuration document describes.
pub open spec fn config_from(document: json::JsonValue) -> Config {
    Config {
        dir: record_from(json_member_of(document, "dir"@)),
        file: record_from(json_member_of(document, "file"@)),
        readonly: record_from(json_member_of(document, "readonly"@)),
    }
}

/// What there is to say against a configured colour: the text itself if
/// it is not well formed, nothing otherwise.
pub open spec fn color_complaint(text: Option<Seq<char>>) -> Seq<Seq<char>> {
    match text {
        Some(t) => if is_color_spec(t) {
            Seq::empty()
        } else {
            seq![t]
        },
        None => Seq::empty(),
    }
}

/// The malformed colours of one section: base colour, read-only colour,
/// read-only background, in that order.
pub open spec fn section_complaints(section: json::JsonValue) -> Seq<Seq<char>> {
    color_complaint(json_text_of(json_member_of(section, "color"@))) + color_complaint(
        json_text_of(json_member_of(section, "readonly_color"@)),
    ) + color_complaint(json_text_of(json_member_of(section, "readonly_background_color"@)))
}

/// The malformed colours of a configuration document: those of the
/// directories' section, the files' and the read-only files', in that
/// order.
pub open spec fn complaints(document: json::JsonValue) -> Seq<Seq<char>> {
    section_complaints(json_member_of(document, "dir"@)) + section_complaints(
        json_member_of(document, "file"@),
    ) + section_complaints(json_member_of(document, "readonly"@))
}

/// The texts of a list of strings.
pub open spec fn texts(strings: Seq<String>) -> Seq<Seq<char>> {
    Seq::new(strings.len(), |i: int| strings[i]@)
}

/// The colour that a configured text stands for, if one is configured.
pub fn color_from(text: Option<String>) -> (color: Option<ColorSpec>)
    ensures
        color == color_setting(
            match text {
                Some(t) => Some(t@),
                None => None,
            },
        ),
{
    match text {
        Some(t) => Some(conv_color(t.as_str())),
        None => None,
    }
}

/// Whether an attribute is switched on: only if it is configured as true.
pub fn flag_from(flag: Option<bool>) -> (on: bool)
    ensures
        on == flag_setting(flag),
{
    match flag {
        Some(b) => b,
        None => false,
    }
}

/// Reads the colour under `key`, noting its text if it is malformed.
fn read_color(section: &json::JsonValue, key: &str, malformed: &mut Vec<String>) -> (color: Option<
    ColorSpec,
>)
    ensures
        color == color_field(*section, key@),
        texts(final(malformed)@) == texts(old(malformed)@) + color_complaint(
            json_text_of(json_member_of(*section, key@)),
        ),
{
    let text = json_text(json_member(section, key));
    match &text {
        Some(t) => {
            if !is_valid_color(t.as_str()) {
                malformed.push(t.clone());
                assert(texts(malformed@) =~= texts(old(malformed)@) + seq![t@]);
            } else {
                assert(texts(malformed@) =~= texts(old(malformed)@) + Seq::<Seq<char>>::empty());
            }
        },
        None => {
            assert(texts(malformed@) =~= texts(old(malformed)@) + Seq::<Seq<char>>::empty());
        },
    }
    color_from(text)
}

fn read_flag(section: &json::JsonValue, key: &str) -> (on: bool)
    ensures
        on == flag_field(*section, key@),
{
    flag_from(json_flag(json_member(section, key)))
}

fn read_record(section: &json::JsonValue, malformed: &mut Vec<String>) -> (record: StyleRecord)
    ensures
        record == record_from(*section),
        texts(final(malformed)@) == texts(old(malformed)@) + section_complaints(*section),
{
    let color = read_color(section, "color", malformed);
    let readonly_color = read_color(section, "readonly_color", malformed);
    let readonly_background_color = read_color(section, "readonly_background_color", malformed);
    proof {
        let a = color_complaint(json_text_of(json_member_of(*section, "color"@)));
        let b = color_complaint(json_text_of(json_member_of(*section, "readonly_color"@)));
        let c = color_complaint(
            json_text_of(json_member_of(*section, "readonly_background_color"@)),
        );
        assert(texts(old(malformed)@) + a + b + c =~= texts(old(malformed)@) + (a + b + c));
    }
    StyleRecord {
        color,
        attributes: Attributes {
            bold: read_flag(section, "bold"),
            underline: read_flag(section, "underline"),
            reversed: read_flag(section, "reversed"),
            italic: read_flag(section, "italic"),
            blink: read_flag(section, "blink"),
            hidden: read_flag(section, "hidden"),
            strikethrough: read_flag(section, "strikethrough"),
        },
        readonly_color,
        readonly_background_color,
    }
}

/// Reads the style records from the text of a configuration. Text of
/// more than `MAX_CONFIG_LENGTH` characters is refused unread; text that
/// is not JSON is the only other error. A category or a field that is
/// missing or of another JSON type is read as not configured. A colour
/// that is malformed is read as its channels degrade, and its text is
/// handed back so that the caller can report it.
pub fn parse_config(text: &str) -> (r: Result<LoadedConfig, ConfigError>)
    ensures
        match r {
            Ok(loaded) => {
                &&& text@.len() <= MAX_CONFIG_LENGTH
                &&& json_document(text@) is Some
                &&& loaded.config == config_from(json_document(text@).unwrap())
                &&& texts(loaded.malformed_colors@) == complaints(json_document(text@).unwrap())
            },
            Err(ConfigError::TooLong) => text@.len() > MAX_CONFIG_LENGTH,
            Err(ConfigError::Malformed { .. }) => text@.len() <= MAX_CONFIG_LENGTH
                && json_document(text@) is None,
        },
{
    if text.unicode_len() > MAX_CONFIG_LENGTH {
        return Err(ConfigError::TooLong);
    }
    match json_parse(text) {
        Ok(document) => {
            let mut malformed: Vec<String> = Vec::new();
            assert(texts(malformed@) =~= Seq::<Seq<char>>::empty());
            let dir = read_record(json_member(&document, "dir"), &mut malformed);
            let file = read_record(json_member(&document, "file"), &mut malformed);
            let readonly = read_record(json_member(&document, "readonly"), &mut malformed);
            proof {
                let a = section_complaints(json_member_of(document, "dir"@));
                let b = section_complaints(json_member_of(document, "file"@));
                let c = section_complaints(json_member_of(document, "readonly"@));
                assert(Seq::<Seq<char>>::empty() + a + b + c =~= a + b + c);
            }
            Ok(LoadedConfig { config: Config { dir, file, readonly }, malformed_colors: malformed })
        },
        Err(error) => Err(ConfigError::Malformed { message: json_error_text(&error) }),
    }
}

} // verus!
