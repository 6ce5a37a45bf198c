//! The TOML document resource: the text last parsed, the data it held, and
//! where and why the last parse failed.

use vstd::prelude::*;
use vstd::utf8::encode_utf8;
use crate::convert::{
    contains_datetime, deserialize_variant, deserialized, has_datetime, serialize_variant, serializable, serialized,
    tables_unique,
};
use crate::toml_value::{TomlModel, TomlValue};
use crate::variant::{Variant, VariantModel};

verus! {

broadcast use vstd::string::group_string_axioms;

/// Why a TOML text could not be parsed: the parser's message, and the byte
/// offset in the text where the offending span starts, when it has one.
#[derive(Debug, PartialEq)]
pub struct TomlSyntaxError {
    pub message: String,
    pub span_start: Option<usize>,
}

/// The number of line feeds in `s`.
pub open spec fn line_feeds(s: Seq<char>) -> nat
    decreases s.len(),
{
    if s.len() == 0 {
        0
    } else {
        line_feeds(s.drop_last()) + if s.last() == '\n' { 1nat } else { 0nat }
    }
}

/// The number of line feeds that Godot's `String.count("\n", 0, end)` finds:
/// those among the first `end` characters, or in the whole text when `end`
/// is 0, which Godot takes for the end of the text.
pub open spec fn line_feeds_before(text: Seq<char>, end: int) -> nat {
    if end == 0 || end >= text.len() {
        line_feeds(text)
    } else {
        line_feeds(text.take(end))
    }
}

/// The line feeds of a text are exactly its `'\n'` characters: no other
/// character, `'\r'` among them, counts as a line break.
pub proof fn lemma_line_feeds_are_the_line_feed_characters(s: Seq<char>)
    ensures
        line_feeds(s) == s.filter(|c: char| c == '\n').len(),
        (forall|i: int| 0 <= i < s.len() ==> s[i] != '\n') ==> line_feeds(s) == 0,
    decreases s.len(),
{
    if s.len() > 0 {
        lemma_line_feeds_are_the_line_feed_characters(s.drop_last());
        reveal(Seq::filter);
        assert(s.filter(|c: char| c == '\n').len() == s.drop_last().filter(|c: char| c == '\n').len() + if s.last()
            == '\n' {
            1nat
        } else {
            0nat
        });
        if forall|i: int| 0 <= i < s.len() ==> s[i] != '\n' {
            assert forall|i: int| 0 <= i < s.drop_last().len() implies s.drop_last()[i] != '\n' by {
                assert(s.drop_last()[i] == s[i]);
            }
            assert(s.last() == s[s.len() - 1]);
        }
    }
}

/// A prefix holds no more line feeds than the whole text.
proof fn lemma_line_feeds_prefix(s: Seq<char>, k: int)
    requires
        0 <= k <= s.len(),
    ensures
        line_feeds(s.take(k)) <= line_feeds(s),
    decreases s.len() - k,
{
    if k < s.len() {
        lemma_line_feeds_prefix(s, k + 1);
        assert(s.take(k + 1).drop_last() =~= s.take(k));
    } else {
        assert(s.take(k) =~= s);
    }
}

/// An error line is a line of the text: it is never more than the number of
/// line feeds in the whole text.
pub proof fn lemma_error_line_within_text(text: Seq<char>, end: usize)
    ensures
        line_feeds_before(text, end as int) <= line_feeds(text),
{
    if !(end == 0 || end >= text.len()) {
        lemma_line_feeds_prefix(text, end as int);
    }
}

/// A text has at least as many bytes in UTF-8 as it has characters.
proof fn lemma_utf8_len_at_least_chars(chars: Seq<char>)
    ensures
        encode_utf8(chars).len() >= chars.len(),
    decreases chars.len(),
{
    if chars.len() > 0 {
        lemma_utf8_len_at_least_chars(chars.drop_first());
    }
}

/// Counts the line feeds before character position `end` as Godot's
/// `String.count("\n", 0, end)` does, with `end == 0` meaning the end of the text.
pub fn count_line_feeds_before(text: &str, end: usize) -> (count: usize)
    ensures
        count == line_feeds_before(text@, end as int),
        count == (if end == 0 || end >= text@.len() { text@ } else { text@.take(end as int) }).filter(
            |c: char| c == '\n',
        ).len(),
{
    let ghost chars = text@;
    let byte_len = text.as_bytes().len();
    proof {
        lemma_utf8_len_at_least_chars(chars);
    }
    let ghost limit: int = if end == 0 || end >= chars.len() { chars.len() as int } else { end as int };
    let mut count: usize = 0;
    let mut position: usize = 0;
    for c in it: text.chars()
        invariant
            it.seq() == chars,
            chars.len() <= byte_len,
            position == it.index(),
            limit == (if end == 0 || end >= chars.len() { chars.len() as int } else { end as int }),
            count == line_feeds(chars.take(if position < limit { position as int } else { limit })),
            count <= position,
    {
        proof {
            if position < limit {
                assert(chars.take(position + 1).drop_last() =~= chars.take(position as int));
            }
        }
        if (end == 0 || position < end) && c == '\n' {
            count = count + 1;
        }
        position = position + 1;
    }
    proof {
        assert(chars.take(chars.len() as int) =~= chars);
        lemma_line_feeds_are_the_line_feed_characters(chars);
        if !(end == 0 || end >= chars.len()) {
            lemma_line_feeds_are_the_line_feed_characters(chars.take(end as int));
        }
    }
    count
}

#[verifier::external_type_specification]
#[verifier::external_body]
pub struct ExTomlValue(toml::Value);

/// What `toml::from_str::<toml::Value>` gives for a text: the document's
/// value, or the error's message and the byte offset where its span starts.
pub uninterp spec fn toml_parsed(text: Seq<char>) -> Result<TomlModel, (Seq<char>, Option<int>)>;

/// The plain value of a parse outcome.
pub open spec fn syntax_outcome(res: Result<TomlValue, TomlSyntaxError>) -> Result<TomlModel, (Seq<char>, Option<int>)> {
    match res {
        Ok(value) => Ok(value@),
        Err(error) => Err(
            (
                error.message@,
                match error.span_start {
                    Some(start) => Some(start as int),
                    None => None,
                },
            ),
        ),
    }
}

/// Converts a value of the `toml` crate into the library's value, one for one:
/// a float by its bits, a date-time by its TOML text, a table by its entries in
/// the map's order.
#[verifier::external_body]
fn toml_value_from(value: &toml::Value) -> TomlValue {
    match value {
        toml::Value::String(s) => TomlValue::String(s.clone()),
        toml::Value::Integer(i) => TomlValue::Integer(*i),
        toml::Value::Float(f) => TomlValue::Float(f.to_bits()),
        toml::Value::Boolean(b) => TomlValue::Boolean(*b),
        toml::Value::Datetime(d) => TomlValue::Datetime(d.to_string()),
        toml::Value::Array(items) => TomlValue::Array(items.iter().map(toml_value_from).collect()),
        toml::Value::Table(t) => TomlValue::Table(t.iter().map(|(k, v)| (k.clone(), toml_value_from(v))).collect()),
    }
}

/// Calls `toml::from_str::<toml::Value>` and converts its value or error. The
/// contract names the outcome, and claims what the crate's source shows: a
/// document is read through `Value`'s map visitor, which gives a table, or a
/// date-time when the first key is the crate's date-time marker; and a table
/// is a map, so no table repeats a key.
#[verifier::external_body]
fn toml_from_str(text: &str) -> (res: Result<TomlValue, TomlSyntaxError>)
    ensures
        syntax_outcome(res) == toml_parsed(text@),
        res matches Ok(v) ==> (v is Table || v is Datetime) && tables_unique(v@),
{
    match toml::from_str::<toml::Value>(text) {
        Ok(value) => Ok(toml_value_from(&value)),
        Err(e) => Err(TomlSyntaxError { message: e.message().to_owned(), span_start: e.span().map(|span| span.start) }),
    }
}

/// How a parse outcome is recorded in a document: the text is kept when asked;
/// on success the data becomes the value read, the error fields stay and the
/// result is 0; on failure the data stays, the message is recorded, the error
/// line becomes the number of line feeds before the error's span when it has
/// one, and the result is the error line.
pub open spec fn parse_recorded(
    before: TOML,
    after: TOML,
    text: Seq<char>,
    keep_text: bool,
    outcome: Result<TomlModel, (Seq<char>, Option<int>)>,
    res: i64,
) -> bool {
    &&& after.parsed_text@ == (if keep_text { text } else { Seq::<char>::empty() })
    &&& match outcome {
        Ok(value) => {
            &&& res == 0
            &&& after.data@ == deserialized(value)
            &&& after.error_line == before.error_line
            &&& after.error_message == before.error_message
        },
        Err((message, span_start)) => {
            &&& after.data == before.data
            &&& after.error_message@ == message
            &&& after.error_line == (match span_start {
                Some(start) => line_feeds_before(text, start) as i64,
                None => before.error_line,
            })
            &&& res == after.error_line
        },
    }
}

/// A parsed TOML document, as the resource that Godot scripts use.
pub struct TOML {
    /// What the last successful parse read.
    pub data: Variant,
    /// The line (counted from 0) of the last parse error that had a position.
    pub error_line: i64,
    /// The message of the last parse error.
    pub error_message: String,
    /// The text of the last parse, when it was asked to be kept.
    pub parsed_text: String,
}

impl Default for TOML {
    /// An empty document: no data, no error, no text.
    fn default() -> (res: TOML)
        ensures
            res.data@ == VariantModel::Nil,
            res.error_line == 0,
            res.error_message@ == Seq::<char>::empty(),
            res.parsed_text@ == Seq::<char>::empty(),
    {
        TOML { data: Variant::Nil, error_line: 0, error_message: String::new(), parsed_text: String::new() }
    }
}

impl TOML {
    /// The line of the last parse error.
    pub fn get_error_line(&self) -> (line: i64)
        ensures
            line == self.error_line,
    {
        self.error_line
    }

    /// The message of the last parse error.
    pub fn get_error_message(&self) -> (message: String)
        ensures
            message@ == self.error_message@,
    {
        self.error_message.clone()
    }

    /// The text of the last parse, or empty when it was not kept.
    pub fn get_parsed_text(&self) -> (text: String)
        ensures
            text@ == self.parsed_text@,
    {
        self.parsed_text.clone()
    }

    /// Records the parse of `toml_text`, whose outcome the TOML parser gave.
    /// The text is kept when `keep_text` is set. On success the data becomes
    /// the value read and 0 is returned; on failure the message is recorded,
    /// the error line becomes the number of line feeds before the error's
    /// span when the error has one, and the error line is returned.
    pub fn record_parse(&mut self, toml_text: String, keep_text: bool, outcome: Result<TomlValue, TomlSyntaxError>) -> (res: i64)
        requires
            outcome matches Ok(value) ==> !has_datetime(value@),
        ensures
            parse_recorded(*old(self), *final(self), toml_text@, keep_text, syntax_outcome(outcome), res),
    {
        self.parsed_text = if keep_text { toml_text.clone() } else { String::new() };
        match outcome {
            Ok(value) => {
                self.data = deserialize_variant(&value);
                0
            },
            Err(error) => {
                self.error_message = error.message;
                if let Some(start) = error.span_start {
                    self.error_line = count_line_feeds_before(toml_text.as_str(), start) as i64;
                }
                self.get_error_line()
            },
        }
    }

    /// Parses `toml_text` with the `toml` crate and records the outcome as
    /// `record_parse` does: 0 on success, else the error line. A document that
    /// holds a date-time has no variant; for it `None` is returned and the
    /// document is left as it was.
    pub fn parse(&mut self, toml_text: String, keep_text: bool) -> (res: Option<i64>)
        ensures
            res is None <==> (toml_parsed(toml_text@) matches Ok(v) && has_datetime(v)),
            res is None ==> *final(self) == *old(self),
            res is Some && toml_parsed(toml_text@) is Ok ==> final(self).data is Dictionary,
            res matches Some(r) ==> parse_recorded(
                *old(self),
                *final(self),
                toml_text@,
                keep_text,
                toml_parsed(toml_text@),
                r,
            ),
    {
        let outcome = toml_from_str(toml_text.as_str());
        if let Ok(value) = &outcome {
            if contains_datetime(value) {
                return None;
            }
        }
        Some(self.record_parse(toml_text, keep_text, outcome))
    }

    /// Parses `toml_string` in a fresh document and gives the data read, or
    /// nil when the parse failed; `None` for a document that holds a date-time.
    pub fn parse_string(toml_string: String) -> (res: Option<Variant>)
        ensures
            res is None <==> (toml_parsed(toml_string@) matches Ok(v) && has_datetime(v)),
            res matches Some(r) ==> r@ == (match toml_parsed(toml_string@) {
                Ok(value) => deserialized(value),
                Err(_) => VariantModel::Nil,
            }),
    {
        let mut toml = TOML::default();
        let error_line = match toml.parse(toml_string, false) {
            Some(line) => line,
            None => return None,
        };
        if error_line != 0 {
            Some(Variant::Nil)
        } else {
            Some(toml.data)
        }
    }

    /// The TOML value that a variant is written as. Only a dictionary can be
    /// written as a TOML document.
    pub fn stringify(variant: Variant) -> (res: TomlValue)
        requires
            variant is Dictionary,
            serializable(variant@),
        ensures
            res@ == serialized(variant@),
            res is Table,
    {
        serialize_variant(variant)
    }
}

} // verus!
