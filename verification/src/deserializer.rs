//! Reading the input into a document: CSV as one object per record, JSON,
//! TOML and YAML as the tree that their parsers build.
use serde::Deserialize;
use serde_json::Value;
use vstd::prelude::*;

use crate::format::Format;
use crate::input::Input;
use crate::text::chars_of;
use crate::tree::from_serde_value;
use crate::value::JsonValue;

verus! {

/// Why reading serialized data failed.
#[derive(Debug, PartialEq, Eq)]
pub enum DeserializeError {
    /// The CSV reader rejected the input; the reader's message.
    Csv(String),
    /// The JSON parser rejected the input; the parser's message.
    Json(String),
    /// The TOML parser rejected the input; the parser's message.
    Toml(String),
    /// The YAML parser rejected the input; the parser's message.
    Yaml(String),
}

/// The document that `serde_json` parses from `text` into a
/// `serde_json::Value`, without a recursion limit (nesting is carried on a
/// stack that `serde_stacker` grows), or the display text of its error. A
/// name for what that crate computes.
pub uninterp spec fn json_document(text: Seq<char>) -> Result<JsonValue, Seq<char>>;

/// The document that `toml::from_str` parses from `text` into a
/// `serde_json::Value`, or the display text of its error. A name for what
/// that crate computes.
pub uninterp spec fn toml_document(text: Seq<char>) -> Result<JsonValue, Seq<char>>;

/// The document that `serde_yaml::from_str` parses from `text` into a
/// `serde_json::Value`, or the display text of its error. A name for what
/// that crate computes.
pub uninterp spec fn yaml_document(text: Seq<char>) -> Result<JsonValue, Seq<char>>;

/// Calls `serde_json` on `text`: a `Deserializer` over the string with its
/// recursion limit disabled, wrapped in `serde_stacker::Deserializer`, read
/// into a `serde_json::Value`, whose tree is handed back as a document; an
/// error as the text its `Display` writes. The result is taken to be
/// `json_document(text@)`.
#[verifier::external_body]
fn parse_json(text: &str) -> (r: Result<JsonValue, String>)
    ensures
        match r {
            Ok(v) => json_document(text@) == Ok::<JsonValue, Seq<char>>(v),
            Err(message) => json_document(text@) == Err::<JsonValue, Seq<char>>(message@),
        },
{
    let mut json = serde_json::Deserializer::from_str(text);
    json.disable_recursion_limit();
    let stacked = serde_stacker::Deserializer::new(&mut json);
    match Value::deserialize(stacked) {
        Ok(tree) => Ok(from_serde_value(&tree)),
        Err(error) => Err(error.to_string()),
    }
}

/// Calls `toml::from_str` on `text` into a `serde_json::Value`, whose tree
/// is handed back as a document; an error as the text its `Display` writes.
/// The result is taken to be `toml_document(text@)`.
#[verifier::external_body]
fn parse_toml(text: &str) -> (r: Result<JsonValue, String>)
    ensures
        match r {
            Ok(v) => toml_document(text@) == Ok::<JsonValue, Seq<char>>(v),
            Err(message) => toml_document(text@) == Err::<JsonValue, Seq<char>>(message@),
        },
{
    match toml::from_str::<Value>(text) {
        Ok(tree) => Ok(from_serde_value(&tree)),
        Err(error) => Err(error.to_string()),
    }
}

/// Calls `serde_yaml::from_str` on `text` into a `serde_json::Value`, whose
/// tree is handed back as a document; an error as the text its `Display`
/// writes. The result is taken to be `yaml_document(text@)`.
#[verifier::external_body]
fn parse_yaml(text: &str) -> (r: Result<JsonValue, String>)
    ensures
        match r {
            Ok(v) => yaml_document(text@) == Ok::<JsonValue, Seq<char>>(v),
            Err(message) => yaml_document(text@) == Err::<JsonValue, Seq<char>>(message@),
        },
{
    match serde_yaml::from_str::<Value>(text) {
        Ok(tree) => Ok(from_serde_value(&tree)),
        Err(error) => Err(error.to_string()),
    }
}

/// What the `csv` crate reads from `text` with its default settings (a
/// header row, `,` as delimiter, `"` as quote, every row as long as the
/// header): each record as the (header, field) pairs of an
/// `IndexMap<String, String>` in map order, or the display text of the
/// first error that the reader or the deserializer reports. A name for what
/// that crate computes.
pub uninterp spec fn csv_records(text: Seq<char>) -> Result<Seq<Seq<(Seq<char>, Seq<char>)>>, Seq<char>>;

/// The views of records.
pub open spec fn rows_view(rows: Seq<Vec<(String, String)>>) -> Seq<Seq<(Seq<char>, Seq<char>)>> {
    rows.map_values(|row: Vec<(String, String)>| pairs_view(row@))
}

/// The views of (key, value) pairs.
pub open spec fn pairs_view(pairs: Seq<(String, String)>) -> Seq<(Seq<char>, Seq<char>)> {
    pairs.map_values(|p: (String, String)| (p.0@, p.1@))
}

/// Calls the `csv` crate as a default `ReaderBuilder` reading `text`, and
/// deserializes every record into an `IndexMap<String, String>` keyed by the
/// header, stopping at the first error; each map is handed back as its
/// (key, value) pairs in map order, an error as the text that its `Display`
/// writes. The result is taken to be `csv_records(text@)`; how `csv` splits
/// and unquotes fields, and the wording of its errors, are not restated.
#[verifier::external_body]
fn read_csv_records(text: &str) -> (r: Result<Vec<Vec<(String, String)>>, String>)
    ensures
        match r {
            Ok(rows) => csv_records(text@) matches Ok(v) && v == rows_view(rows@),
            Err(message) => csv_records(text@) matches Err(m) && m == message@,
        },
{
    csv::ReaderBuilder::new()
        .from_reader(text.as_bytes())
        .into_deserialize::<indexmap::IndexMap<String, String>>()
        .map(|record| record.map(|row| row.into_iter().collect()))
        .collect::<Result<Vec<_>, csv::Error>>()
        .map_err(|error| error.to_string())
}

/// `s` without one pair of surrounding double quotes, when it has them.
pub open spec fn trimmed(s: Seq<char>) -> Seq<char> {
    if s.len() > 1 && s[0] == '"' && s[s.len() - 1] == '"' {
        s.subrange(1, s.len() - 1)
    } else {
        s
    }
}

/// `entries` holds each key at most once.
pub open spec fn distinct_keys(entries: Seq<(Seq<char>, Seq<char>)>) -> bool {
    forall|i: int, j: int|
        0 <= i < j < entries.len() ==> #[trigger] entries[i].0 != #[trigger] entries[j].0
}

/// Whether `entries` holds the key `k`.
pub open spec fn has_key(entries: Seq<(Seq<char>, Seq<char>)>, k: Seq<char>) -> bool {
    exists|i: int| 0 <= i < entries.len() && #[trigger] entries[i].0 == k
}

/// The position of key `k` in `entries`.
pub open spec fn key_index(entries: Seq<(Seq<char>, Seq<char>)>, k: Seq<char>) -> int {
    choose|i: int| 0 <= i < entries.len() && #[trigger] entries[i].0 == k
}

/// Map insertion that keeps insertion order: a present key keeps its place
/// and takes the new value; a new key goes at the end.
pub open spec fn insert_entry(entries: Seq<(Seq<char>, Seq<char>)>, k: Seq<char>, v: Seq<char>) -> Seq<
    (Seq<char>, Seq<char>),
> {
    if has_key(entries, k) {
        entries.update(key_index(entries, k), (k, v))
    } else {
        entries.push((k, v))
    }
}

/// The object built from one CSV record: each (header, field) pair, both
/// without surrounding quotes, inserted in order.
pub open spec fn row_entries(row: Seq<(Seq<char>, Seq<char>)>) -> Seq<(Seq<char>, Seq<char>)>
    decreases row.len(),
{
    if row.len() == 0 {
        seq![]
    } else {
        insert_entry(
            row_entries(row.drop_last()),
            trimmed(row.last().0),
            trimmed(row.last().1),
        )
    }
}

/// `v` is an object whose entries are the given keys with string values.
pub open spec fn is_string_object(v: JsonValue, expected: Seq<(Seq<char>, Seq<char>)>) -> bool {
    &&& v matches JsonValue::Object(entries)
    &&& entries@.len() == expected.len()
    &&& forall|i: int|
        0 <= i < expected.len() ==> entries@[i].0@ == expected[i].0 && (
        #[trigger] entries@[i].1 matches JsonValue::String(s) && s@ == expected[i].1)
}

/// `v` is the document read from the CSV records `rows`: an array with one
/// object per record.
pub open spec fn is_csv_document(v: JsonValue, rows: Seq<Seq<(Seq<char>, Seq<char>)>>) -> bool {
    &&& v matches JsonValue::Array(items)
    &&& items@.len() == rows.len()
    &&& forall|i: int| 0 <= i < rows.len() ==> is_string_object(#[trigger] items@[i], row_entries(rows[i]))
}

/// Insertion keeps keys distinct.
proof fn lemma_insert_entry_distinct(entries: Seq<(Seq<char>, Seq<char>)>, k: Seq<char>, v: Seq<char>)
    requires
        distinct_keys(entries),
    ensures
        distinct_keys(insert_entry(entries, k, v)),
{
    let r = insert_entry(entries, k, v);
    if has_key(entries, k) {
        let p = key_index(entries, k);
        assert forall|i: int, j: int| 0 <= i < j < r.len() implies #[trigger] r[i].0 != #[trigger] r[j].0 by {
            if i == p {
                assert(entries[j].0 != entries[p].0);
            } else if j == p {
                assert(entries[i].0 != entries[p].0);
            } else {
                assert(entries[i].0 != entries[j].0);
            }
        }
    } else {
        assert forall|i: int, j: int| 0 <= i < j < r.len() implies #[trigger] r[i].0 != #[trigger] r[j].0 by {
            if j == entries.len() {
                assert(entries[i].0 != k);
            } else {
                assert(entries[i].0 != entries[j].0);
            }
        }
    }
}

/// The keys of a record's object are distinct.
proof fn lemma_row_entries_distinct(row: Seq<(Seq<char>, Seq<char>)>)
    ensures
        distinct_keys(row_entries(row)),
    decreases row.len(),
{
    if row.len() > 0 {
        lemma_row_entries_distinct(row.drop_last());
        lemma_insert_entry_distinct(row_entries(row.drop_last()), trimmed(row.last().0), trimmed(row.last().1));
    }
}

/// A record's (header, field) pairs without surrounding quotes.
pub open spec fn trimmed_pairs(row: Seq<(Seq<char>, Seq<char>)>) -> Seq<(Seq<char>, Seq<char>)> {
    row.map_values(|p: (Seq<char>, Seq<char>)| (trimmed(p.0), trimmed(p.1)))
}

/// When the headers of a record are distinct (after trimming quotes), its
/// object has one entry per column, in header order.
pub proof fn law_csv_keeps_header_order(row: Seq<(Seq<char>, Seq<char>)>)
    requires
        forall|i: int, j: int|
            0 <= i < j < row.len() ==> trimmed(#[trigger] row[i].0) != trimmed(#[trigger] row[j].0),
    ensures
        row_entries(row) == trimmed_pairs(row),
    decreases row.len(),
{
    if row.len() > 0 {
        let rest = row.drop_last();
        law_csv_keeps_header_order(rest);
        let k = trimmed(row.last().0);
        assert(!has_key(row_entries(rest), k)) by {
            if has_key(row_entries(rest), k) {
                let i = choose|i: int| 0 <= i < row_entries(rest).len() && #[trigger] row_entries(rest)[i].0 == k;
                assert(row_entries(rest)[i].0 == trimmed(row[i].0));
                assert(trimmed(row[i].0) != trimmed(row[row.len() - 1].0));
            }
        }
        assert(row_entries(row) =~= trimmed_pairs(row));
    } else {
        assert(row_entries(row) =~= trimmed_pairs(row));
    }
}

/// Inserts `key` with `value`, keeping insertion order.
fn insert_pair(entries: &mut Vec<(String, String)>, key: String, value: String)
    requires
        distinct_keys(pairs_view(old(entries)@)),
    ensures
        pairs_view(final(entries)@) == insert_entry(pairs_view(old(entries)@), key@, value@),
{
    let ghost before = pairs_view(entries@);
    let mut i: usize = 0;
    while i < entries.len()
        invariant
            i <= entries@.len(),
            entries@ == old(entries)@,
            before == pairs_view(entries@),
            distinct_keys(before),
            forall|j: int| 0 <= j < i ==> (#[trigger] entries@[j]).0@ != key@,
        decreases entries@.len() - i,
    {
        if entries[i].0 == key {
            proof {
                assert(before[i as int].0 == key@);
                assert(has_key(before, key@));
                let p = key_index(before, key@);
                if p < i {
                    assert(before[p].0 == before[i as int].0);
                } else if p > i {
                    assert(before[i as int].0 == before[p].0);
                }
                assert(p == i as int);
            }
            entries.set(i, (key, value));
            assert(pairs_view(entries@) =~= insert_entry(before, key@, value@));
            return;
        }
        i = i + 1;
    }
    assert(!has_key(before, key@)) by {
        if has_key(before, key@) {
            let p = key_index(before, key@);
            assert(entries@[p].0@ != key@);
        }
    }
    entries.push((key, value));
    assert(pairs_view(entries@) =~= insert_entry(before, key@, value@));
}

/// Only one pair of surrounding double quotes is ever cut: text between
/// two double quotes comes back as it was inside them, and text that does
/// not both start and end with a double quote (in particular text with no
/// double quote at all, or a lone `"`) is kept unchanged.
pub proof fn law_trim_cuts_only_surrounding_quotes(s: Seq<char>, inner: Seq<char>)
    ensures
        trimmed(seq!['"'] + inner + seq!['"']) == inner,
        !(s.len() >= 2 && s[0] == '"' && s[s.len() - 1] == '"') ==> trimmed(s) == s,
        (forall|i: int| 0 <= i < s.len() ==> #[trigger] s[i] != '"') ==> trimmed(s) == s,
{
    let q = seq!['"'] + inner + seq!['"'];
    assert(q.subrange(1, q.len() - 1) =~= inner);
    if forall|i: int| 0 <= i < s.len() ==> #[trigger] s[i] != '"' {
        if s.len() >= 2 {
            assert(s[0] != '"');
        }
    }
}

/// `input` without one pair of surrounding double quotes, when it has them.
pub fn trim_quotes(input: String) -> (r: String)
    ensures
        r@ == trimmed(input@),
{
    let letters = chars_of(input.as_str());
    let len = letters.len();
    if len > 1 && letters[0] == '"' && letters[len - 1] == '"' {
        input.as_str().substring_char(1, len - 1).to_owned()
    } else {
        input
    }
}

/// The object for one CSV record.
fn row_object(row: &Vec<(String, String)>) -> (r: JsonValue)
    ensures
        is_string_object(r, row_entries(pairs_view(row@))),
{
    let mut pairs: Vec<(String, String)> = Vec::new();
    let mut i: usize = 0;
    while i < row.len()
        invariant
            i <= row@.len(),
            pairs_view(pairs@) == row_entries(pairs_view(row@).take(i as int)),
        decreases row@.len() - i,
    {
        proof {
            lemma_row_entries_distinct(pairs_view(row@).take(i as int));
            assert(pairs_view(row@).take(i + 1).drop_last() =~= pairs_view(row@).take(i as int));
        }
        let key = trim_quotes(row[i].0.clone());
        let value = trim_quotes(row[i].1.clone());
        insert_pair(&mut pairs, key, value);
        i = i + 1;
    }
    assert(pairs_view(row@).take(row@.len() as int) =~= pairs_view(row@));
    let ghost expected = pairs_view(pairs@);
    let mut entries: Vec<(String, JsonValue)> = Vec::new();
    let mut j: usize = 0;
    while j < pairs.len()
        invariant
            j <= pairs@.len(),
            expected == pairs_view(pairs@),
            entries@.len() == j,
            forall|k: int|
                0 <= k < j ==> entries@[k].0@ == expected[k].0 && (
                #[trigger] entries@[k].1 matches JsonValue::String(s) && s@ == expected[k].1),
        decreases pairs@.len() - j,
    {
        let key = pairs[j].0.clone();
        let value = pairs[j].1.clone();
        entries.push((key, JsonValue::String(value)));
        j = j + 1;
    }
    JsonValue::Object(entries)
}

/// The document read from CSV records: an array with one object per record,
/// keys and fields without surrounding quotes.
pub fn csv_document(rows: &Vec<Vec<(String, String)>>) -> (r: JsonValue)
    ensures
        is_csv_document(r, rows_view(rows@)),
{
    let mut items: Vec<JsonValue> = Vec::new();
    let mut i: usize = 0;
    while i < rows.len()
        invariant
            i <= rows@.len(),
            items@.len() == i,
            forall|k: int|
                0 <= k < i ==> is_string_object(#[trigger] items@[k], row_entries(rows_view(rows@)[k])),
        decreases rows@.len() - i,
    {
        let item = row_object(&rows[i]);
        items.push(item);
        i = i + 1;
    }
    JsonValue::Array(items)
}

/// Reads `input` in `format`.
#[derive(Debug)]
pub struct Deserializer {
    input: Input,
    format: Format,
}

impl Deserializer {
    /// The input to be read.
    pub closed spec fn spec_input(&self) -> Input {
        self.input
    }

    /// The format it is read in.
    pub closed spec fn spec_format(&self) -> Format {
        self.format
    }

    pub fn new(input: Input, format: Format) -> (r: Self)
        ensures
            r.spec_input() == input,
            r.spec_format() == format,
    {
        Self { input, format }
    }

    /// The input to be read.
    pub fn input(&self) -> (r: &Input)
        ensures
            *r == self.spec_input(),
    {
        &self.input
    }

    /// The format it is read in.
    pub fn format(&self) -> (r: Format)
        ensures
            r == self.spec_format(),
    {
        self.format
    }

    /// Reads the input as CSV: an array with one object per record, keyed by
    /// the header row, keys and fields without surrounding quotes. Fails
    /// exactly when the CSV reader rejects the input, with the reader's
    /// message.
    pub fn deserialize_csv(&self) -> (r: Result<JsonValue, DeserializeError>)
        ensures
            csv_outcome(self.spec_input().spec_contents(), r),
    {
        let contents = self.input.contents();
        match read_csv_records(contents) {
            Ok(rows) => Ok(csv_document(&rows)),
            Err(message) => Err(DeserializeError::Csv(message)),
        }
    }

    /// Reads the input as JSON. Fails exactly when the JSON parser rejects
    /// the input, with the parser's message.
    pub fn deserialize_json(&self) -> (r: Result<JsonValue, DeserializeError>)
        ensures
            parsed_outcome(json_document(self.spec_input().spec_contents()), Format::Json, r),
    {
        match parse_json(self.input.contents()) {
            Ok(v) => Ok(v),
            Err(message) => Err(DeserializeError::Json(message)),
        }
    }

    /// Reads the input as TOML. Fails exactly when the TOML parser rejects
    /// the input, with the parser's message.
    pub fn deserialize_toml(&self) -> (r: Result<JsonValue, DeserializeError>)
        ensures
            parsed_outcome(toml_document(self.spec_input().spec_contents()), Format::Toml, r),
    {
        match parse_toml(self.input.contents()) {
            Ok(v) => Ok(v),
            Err(message) => Err(DeserializeError::Toml(message)),
        }
    }

    /// Reads the input as YAML. Fails exactly when the YAML parser rejects
    /// the input, with the parser's message.
    pub fn deserialize_yaml(&self) -> (r: Result<JsonValue, DeserializeError>)
        ensures
            parsed_outcome(yaml_document(self.spec_input().spec_contents()), Format::Yaml, r),
    {
        match parse_yaml(self.input.contents()) {
            Ok(v) => Ok(v),
            Err(message) => Err(DeserializeError::Yaml(message)),
        }
    }

    /// Reads the input in the chosen format.
    pub fn deserialize(&self) -> (r: Result<JsonValue, DeserializeError>)
        ensures
            deserialized(self.spec_format(), self.spec_input().spec_contents(), r),
    {
        match self.format {
            Format::Csv => self.deserialize_csv(),
            Format::Json => self.deserialize_json(),
            Format::Toml => self.deserialize_toml(),
            Format::Yaml => self.deserialize_yaml(),
        }
    }
}

/// The format alone decides which reader reads the text: CSV by the `csv`
/// reader, JSON, TOML and YAML each by its own parser; a result is that
/// reader's document, and an error is tagged with the format that was read.
pub proof fn law_format_decides_reader(format: Format, text: Seq<char>, r: Result<JsonValue, DeserializeError>)
    requires
        deserialized(format, text, r),
    ensures
        format == Format::Csv ==> match r {
            Ok(v) => csv_records(text) matches Ok(rows) && is_csv_document(v, rows),
            Err(e) => e is Csv && csv_records(text) is Err,
        },
        format == Format::Json ==> match r {
            Ok(v) => json_document(text) == Ok::<JsonValue, Seq<char>>(v),
            Err(e) => e is Json && json_document(text) is Err,
        },
        format == Format::Toml ==> match r {
            Ok(v) => toml_document(text) == Ok::<JsonValue, Seq<char>>(v),
            Err(e) => e is Toml && toml_document(text) is Err,
        },
        format == Format::Yaml ==> match r {
            Ok(v) => yaml_document(text) == Ok::<JsonValue, Seq<char>>(v),
            Err(e) => e is Yaml && yaml_document(text) is Err,
        },
{
}

/// `r` is what reading `text` as CSV gives: the CSV document of the
/// records, or the reader's message as a CSV error.
pub open spec fn csv_outcome(text: Seq<char>, r: Result<JsonValue, DeserializeError>) -> bool {
    match r {
        Ok(v) => csv_records(text) matches Ok(rows) && is_csv_document(v, rows),
        Err(DeserializeError::Csv(message)) => csv_records(text) matches Err(m) && m == message@,
        Err(_) => false,
    }
}

/// `r` is what a parser for `format` gives when it produced `parsed`: the
/// parsed document, or the parser's message as an error of that format.
pub open spec fn parsed_outcome(
    parsed: Result<JsonValue, Seq<char>>,
    format: Format,
    r: Result<JsonValue, DeserializeError>,
) -> bool {
    match r {
        Ok(v) => parsed == Ok::<JsonValue, Seq<char>>(v),
        Err(e) => parsed matches Err(m) && match (format, e) {
            (Format::Json, DeserializeError::Json(message)) => m == message@,
            (Format::Toml, DeserializeError::Toml(message)) => m == message@,
            (Format::Yaml, DeserializeError::Yaml(message)) => m == message@,
            _ => false,
        },
    }
}

/// `r` is what reading `text` in `format` gives.
pub open spec fn deserialized(
    format: Format,
    text: Seq<char>,
    r: Result<JsonValue, DeserializeError>,
) -> bool {
    match format {
        Format::Csv => csv_outcome(text, r),
        Format::Json => parsed_outcome(json_document(text), format, r),
        Format::Toml => parsed_outcome(toml_document(text), format, r),
        Format::Yaml => parsed_outcome(yaml_document(text), format, r),
    }
}

} // verus!
