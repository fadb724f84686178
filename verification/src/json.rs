//! JSON values as plain data.
use crate::double::Double;
use crate::text::{parse_signed, same_text, signed_text, text_option, trim, trimmed};
use serde_json::Value;
use vstd::prelude::*;

verus! {

/// A JSON number, in each of the readings that can be asked of it. `None` is a reading
/// that the number does not have.
#[derive(Clone, Copy, Debug, PartialEq, Eq, Structural)]
pub struct JsonNumber {
    pub unsigned: Option<u64>,
    pub signed: Option<i64>,
    pub double: Option<Double>,
}

#[derive(Debug, PartialEq)]
pub enum Json {
    Null,
    Bool(bool),
    Number(JsonNumber),
    Text(String),
    List(Vec<Json>),
    Object(Vec<(String, Json)>),
}

/// What a [`Json`] stands for. Of several entries of an object with one key, the first
/// is the one that counts.
#[verifier::ext_equal]
pub enum JsonView {
    Null,
    Bool(bool),
    Number(JsonNumber),
    Text(Seq<char>),
    List(Seq<JsonView>),
    Object(Seq<(Seq<char>, JsonView)>),
}

pub open spec fn json_view(json: Json) -> JsonView
    decreases json,
{
    match json {
        Json::Null => JsonView::Null,
        Json::Bool(value) => JsonView::Bool(value),
        Json::Number(number) => JsonView::Number(number),
        Json::Text(text) => JsonView::Text(text@),
        Json::List(items) => JsonView::List(
            Seq::new(
                items@.len(),
                |i: int|
                    if 0 <= i < items@.len() {
                        json_view(items@[i])
                    } else {
                        JsonView::Null
                    },
            ),
        ),
        Json::Object(entries) => JsonView::Object(
            Seq::new(
                entries@.len(),
                |i: int|
                    if 0 <= i < entries@.len() {
                        (entries@[i].0@, json_view(entries@[i].1))
                    } else {
                        (Seq::empty(), JsonView::Null)
                    },
            ),
        ),
    }
}

impl View for Json {
    type V = JsonView;

    open spec fn view(&self) -> JsonView {
        json_view(*self)
    }
}

#[verifier::external_type_specification]
#[verifier::external_body]
pub struct ExValue(serde_json::Value);

#[verifier::external_type_specification]
#[verifier::external_body]
pub struct ExError(serde_json::Error);

/// What a `serde_json::Value` holds.
pub uninterp spec fn value_view(value: serde_json::Value) -> JsonView;

/// The JSON value that a text is, if it is one.
pub uninterp spec fn json_of_text(text: Seq<char>) -> Option<JsonView>;

/// `serde_json::from_str`: the value that the whole text is, or an error.
#[verifier::external_body]
fn parse_value(text: &str) -> (result: Result<Value, serde_json::Error>)
    ensures
        json_of_text(text@) == (match result {
            Ok(value) => Some(value_view(value)),
            Err(_) => None,
        }),
{
    serde_json::from_str(text)
}

/// One level of a value: the scalar it is, or the values directly inside it.
enum JsonLevel {
    Null,
    Bool(bool),
    Number(JsonNumber),
    Text(String),
    List(Vec<Value>),
    Object(Vec<(String, Value)>),
}

spec fn level_view(level: JsonLevel) -> JsonView {
    match level {
        JsonLevel::Null => JsonView::Null,
        JsonLevel::Bool(value) => JsonView::Bool(value),
        JsonLevel::Number(number) => JsonView::Number(number),
        JsonLevel::Text(text) => JsonView::Text(text@),
        JsonLevel::List(items) => JsonView::List(items@.map_values(|item: Value| value_view(item))),
        JsonLevel::Object(entries) => JsonView::Object(
            entries@.map_values(|entry: (String, Value)| (entry.0@, value_view(entry.1))),
        ),
    }
}

/// Takes a `serde_json::Value` apart by its variant, one level deep. The entries of an
/// object keep the order of `serde_json::Map`; a number is read with `as_u64`, `as_i64`
/// and `as_f64`.
#[verifier::external_body]
fn open_value(value: Value) -> (level: JsonLevel)
    ensures
        level_view(level) == value_view(value),
{
    match value {
        Value::Null => JsonLevel::Null,
        Value::Bool(value) => JsonLevel::Bool(value),
        Value::Number(number) => JsonLevel::Number(JsonNumber {
            unsigned: number.as_u64(),
            signed: number.as_i64(),
            double: number.as_f64().map(|double| Double { bits: double.to_bits() }),
        }),
        Value::String(text) => JsonLevel::Text(text),
        Value::Array(items) => JsonLevel::List(items),
        Value::Object(entries) => JsonLevel::Object(entries.into_iter().collect()),
    }
}

fn convert(value: Value) -> (json: Json)
    ensures
        json@ == value_view(value),
    decreases value_view(value),
{
    let ghost model = value_view(value);
    match open_value(value) {
        JsonLevel::Null => Json::Null,
        JsonLevel::Bool(value) => Json::Bool(value),
        JsonLevel::Number(number) => Json::Number(number),
        JsonLevel::Text(text) => Json::Text(text),
        JsonLevel::List(items) => {
            let ghost all = items@;
            let mut converted: Vec<Json> = Vec::new();
            for item in it: items
                invariant
                    it.seq() == all,
                    model == value_view(value),
                    model == JsonView::List(all.map_values(|item: Value| value_view(item))),
                    converted@.len() == it.index(),
                    forall|i: int|
                        0 <= i < converted@.len() ==> (#[trigger] converted@[i])@ == value_view(
                            all[i],
                        ),
            {
                proof {
                    assert(model->List_0[it.index() as int] == value_view(item));
                    assert(decreases_to!(model => model->List_0));
                    assert(decreases_to!(model->List_0 => model->List_0[it.index() as int]));
                }
                converted.push(convert(item));
            }
            let json = Json::List(converted);
            assert(json@->List_0 =~= model->List_0);
            assert(json@ =~= model);
            json
        },
        JsonLevel::Object(entries) => {
            let ghost all = entries@;
            let mut converted: Vec<(String, Json)> = Vec::new();
            for entry in it: entries
                invariant
                    it.seq() == all,
                    model == value_view(value),
                    model == JsonView::Object(
                        all.map_values(|entry: (String, Value)| (entry.0@, value_view(entry.1))),
                    ),
                    converted@.len() == it.index(),
                    forall|i: int|
                        0 <= i < converted@.len() ==> (#[trigger] converted@[i]).0@ == all[i].0@
                            && converted@[i].1@ == value_view(all[i].1),
            {
                proof {
                    assert(model->Object_0[it.index() as int] == (entry.0@, value_view(entry.1)));
                    assert(decreases_to!(model => model->Object_0));
                    assert(decreases_to!(model->Object_0 => model->Object_0[it.index() as int]));
                    assert(decreases_to!(model => model->Object_0[it.index() as int].1));
                }
                converted.push((entry.0, convert(entry.1)));
            }
            let json = Json::Object(converted);
            assert(json@->Object_0 =~= model->Object_0);
            assert(json@ =~= model);
            json
        },
    }
}

impl Json {
    /// Reads one JSON document; `None` if the text is not one.
    pub fn parse(text: &str) -> (json: Option<Json>)
        ensures
            json_option(json) == json_of_text(text@),
    {
        match parse_value(text) {
            Ok(value) => Some(convert(value)),
            Err(_) => None,
        }
    }

    /// A value equal to this one.
    pub fn duplicate(&self) -> (json: Json)
        ensures
            json@ == self@,
        decreases self,
    {
        match self {
            Json::Null => Json::Null,
            Json::Bool(value) => Json::Bool(*value),
            Json::Number(number) => Json::Number(*number),
            Json::Text(text) => Json::Text(text.clone()),
            Json::List(items) => {
                let mut copied: Vec<Json> = Vec::new();
                let mut i: usize = 0;
                while i < items.len()
                    invariant
                        i <= items@.len(),
                        self == Json::List(*items),
                        copied@.len() == i,
                        forall|k: int|
                            0 <= k < i ==> (#[trigger] copied@[k])@ == items@[k]@,
                    decreases items@.len() - i,
                {
                    proof {
                        assert(decreases_to!(*self => self->List_0));
                        assert(decreases_to!(self->List_0 => self->List_0@));
                        assert(decreases_to!(self->List_0@ => self->List_0@[i as int]));
                        assert(decreases_to!(*self => self->List_0@[i as int]));
                    }
                    copied.push(items[i].duplicate());
                    i = i + 1;
                }
                let json = Json::List(copied);
                assert(json@->List_0 =~= self@->List_0);
                assert(json@ =~= self@);
                json
            },
            Json::Object(entries) => {
                let mut copied: Vec<(String, Json)> = Vec::new();
                let mut i: usize = 0;
                while i < entries.len()
                    invariant
                        i <= entries@.len(),
                        self == Json::Object(*entries),
                        copied@.len() == i,
                        forall|k: int|
                            0 <= k < i ==> (#[trigger] copied@[k]).0@ == entries@[k].0@
                                && copied@[k].1@ == entries@[k].1@,
                    decreases entries@.len() - i,
                {
                    proof {
                        assert(decreases_to!(*self => self->Object_0));
                        assert(decreases_to!(self->Object_0 => self->Object_0@));
                        assert(decreases_to!(self->Object_0@ => self->Object_0@[i as int]));
                        assert(decreases_to!(*self => self->Object_0@[i as int].1));
                    }
                    copied.push((entries[i].0.clone(), entries[i].1.duplicate()));
                    i = i + 1;
                }
                let json = Json::Object(copied);
                assert(json@->Object_0 =~= self@->Object_0);
                assert(json@ =~= self@);
                json
            },
        }
    }
}

impl Clone for Json {
    fn clone(&self) -> (json: Json)
        ensures
            json@ == self@,
    {
        self.duplicate()
    }
}

pub open spec fn json_option(json: Option<Json>) -> Option<JsonView> {
    match json {
        Some(json) => Some(json@),
        None => None,
    }
}

/// The double that a text is written as, if it is one and finite.
pub uninterp spec fn double_of_text(text: Seq<char>) -> Option<Double>;

/// The double nearest to an integer.
pub uninterp spec fn nearest_double(number: int) -> Double;

/// `str::parse` into a double, followed by `serde_json::Number::from_f64`, which is
/// `None` for what is not finite.
#[verifier::external_body]
fn parse_double(text: &str) -> (result: Option<Double>)
    ensures
        result == double_of_text(text@),
{
    let number = text.parse().ok().and_then(serde_json::Number::from_f64);
    number.and_then(|number| number.as_f64()).map(|double| Double { bits: double.to_bits() })
}

/// The conversion of an integer to a double, which rounds to the nearest one and is exact
/// up to `2^53`. It is never refused: every `i128` is in the range of a double.
#[verifier::external_body]
fn round_to_double(number: i128) -> (result: Option<Double>)
    ensures
        result == Some(nearest_double(number as int)),
        -0x20_0000_0000_0000 <= number <= 0x20_0000_0000_0000 ==> result->0.truncated() == number,
{
    let number = serde_json::Number::from_f64(number as _);
    number.and_then(|number| number.as_f64()).map(|double| Double { bits: double.to_bits() })
}

/// The number that a text reads as, white space at either end aside: an integer, rounded
/// to a double, or a finite double.
pub open spec fn numeric_text(text: Seq<char>) -> Option<Double> {
    match signed_text(trimmed(text)) {
        Some(number) => Some(nearest_double(number as int)),
        None => double_of_text(trimmed(text)),
    }
}

fn parse_numeric_string(text: &str) -> (result: Option<Double>)
    ensures
        result == numeric_text(text@),
{
    let text = trim(text);
    match parse_signed(text) {
        Some(number) => round_to_double(number as i128),
        None => parse_double(text),
    }
}

/// The value of the first entry with this key.
pub open spec fn entry_value(entries: Seq<(Seq<char>, JsonView)>, key: Seq<char>) -> Option<
    JsonView,
>
    decreases entries.len(),
{
    if entries.len() == 0 {
        None
    } else if entries[0].0 == key {
        Some(entries[0].1)
    } else {
        entry_value(entries.drop_first(), key)
    }
}

impl JsonView {
    pub open spec fn get(self, key: Seq<char>) -> Option<JsonView> {
        match self {
            JsonView::Object(entries) => entry_value(entries, key),
            _ => None,
        }
    }

    pub open spec fn as_text(self) -> Option<Seq<char>> {
        match self {
            JsonView::Text(text) => Some(text),
            _ => None,
        }
    }

    pub open spec fn as_bool(self) -> Option<bool> {
        match self {
            JsonView::Bool(value) => Some(value),
            _ => None,
        }
    }

    pub open spec fn as_u64(self) -> Option<u64> {
        match self {
            JsonView::Number(number) => number.unsigned,
            _ => None,
        }
    }

    /// The integer that a value stands for: a number that is one, a number with its
    /// fraction cut off, or a text that reads as a number, again cut off.
    pub open spec fn as_integer(self) -> Option<i64> {
        match self {
            JsonView::Number(number) => match (number.signed, number.unsigned, number.double) {
                (Some(signed), _, _) => Some(signed),
                (None, Some(unsigned), _) if unsigned <= i64::MAX => Some(unsigned as i64),
                (None, _, Some(double)) => Some(double.signed()),
                _ => None,
            },
            JsonView::Text(text) => match numeric_text(text) {
                Some(double) => Some(double.signed()),
                None => None,
            },
            _ => None,
        }
    }

    /// As [`Self::as_integer`], for what is not below zero.
    pub open spec fn as_unsigned(self) -> Option<u64> {
        match self {
            JsonView::Number(number) => match (number.unsigned, number.signed, number.double) {
                (Some(unsigned), _, _) => Some(unsigned),
                (None, Some(signed), _) if signed >= 0 => Some(signed as u64),
                (None, _, Some(double)) if double.is_finite() && double.at_least_zero() => Some(
                    double.unsigned(),
                ),
                _ => None,
            },
            JsonView::Text(text) => match numeric_text(text) {
                Some(double) if double.is_finite() && double.at_least_zero() => Some(
                    double.unsigned(),
                ),
                _ => None,
            },
            _ => None,
        }
    }

    pub open spec fn as_double(self) -> Option<Double> {
        match self {
            JsonView::Number(number) => match (number.double, number.signed, number.unsigned) {
                (Some(double), _, _) => Some(double),
                (None, Some(signed), _) => Some(nearest_double(signed as int)),
                (None, None, Some(unsigned)) => Some(nearest_double(unsigned as int)),
                _ => None,
            },
            _ => None,
        }
    }
}

/// The field of a value that may not be there.
pub open spec fn field(value: Option<JsonView>, key: Seq<char>) -> Option<JsonView> {
    match value {
        Some(value) => value.get(key),
        None => None,
    }
}

pub open spec fn text_field(value: Option<JsonView>) -> Option<Seq<char>> {
    match value {
        Some(value) => value.as_text(),
        None => None,
    }
}

pub open spec fn bool_field(value: Option<JsonView>) -> Option<bool> {
    match value {
        Some(value) => value.as_bool(),
        None => None,
    }
}

pub open spec fn integer(value: Option<JsonView>) -> Option<i64> {
    match value {
        Some(value) => value.as_integer(),
        None => None,
    }
}

pub open spec fn unsigned(value: Option<JsonView>) -> Option<u64> {
    match value {
        Some(value) => value.as_unsigned(),
        None => None,
    }
}

pub open spec fn double(value: Option<JsonView>) -> Option<Double> {
    match value {
        Some(value) => value.as_double(),
        None => None,
    }
}

pub open spec fn json_ref_option(json: Option<&Json>) -> Option<JsonView> {
    match json {
        Some(json) => Some(json@),
        None => None,
    }
}

impl Json {
    /// The value of a field of an object.
    pub fn get(&self, key: &str) -> (value: Option<&Json>)
        ensures
            json_ref_option(value) == self@.get(key@),
    {
        match self {
            Json::Object(entries) => {
                let mut i: usize = 0;
                proof {
                    assert(self@->Object_0.skip(0) =~= self@->Object_0);
                }
                while i < entries.len()
                    invariant
                        i <= entries@.len(),
                        self == Json::Object(*entries),
                        self@ is Object,
                        self@->Object_0.len() == entries@.len(),
                        self@.get(key@) == entry_value(self@->Object_0.skip(i as int), key@),
                    decreases entries@.len() - i,
                {
                    assert(self@->Object_0.skip(i as int)[0] == (entries@[i as int].0@,
                        entries@[i as int].1@));
                    if same_text(entries[i].0.as_str(), key) {
                        return Some(&entries[i].1);
                    }
                    assert(self@->Object_0.skip(i as int).drop_first() =~= self@->Object_0.skip(
                        i + 1,
                    ));
                    i = i + 1;
                }
                None
            },
            _ => None,
        }
    }

    pub fn is_object(&self) -> (result: bool)
        ensures
            result == (self@ is Object),
    {
        matches!(self, Json::Object(_))
    }

    pub fn is_null(&self) -> (result: bool)
        ensures
            result == (self@ is Null),
    {
        matches!(self, Json::Null)
    }

    pub fn as_str(&self) -> (text: Option<&str>)
        ensures
            match text {
                Some(text) => self@ == JsonView::Text(text@),
                None => !(self@ is Text),
            },
    {
        match self {
            Json::Text(text) => Some(text.as_str()),
            _ => None,
        }
    }

    pub fn as_bool(&self) -> (value: Option<bool>)
        ensures
            value == self@.as_bool(),
    {
        match self {
            Json::Bool(value) => Some(*value),
            _ => None,
        }
    }

    pub fn as_u64(&self) -> (value: Option<u64>)
        ensures
            value == self@.as_u64(),
    {
        match self {
            Json::Number(number) => number.unsigned,
            _ => None,
        }
    }
}

/// The field of a value that may not be there.
pub(crate) fn sub_field<'a>(value: Option<&'a Json>, key: &str) -> (result: Option<&'a Json>)
    ensures
        json_ref_option(result) == field(json_ref_option(value), key@),
{
    match value {
        Some(value) => value.get(key),
        None => None,
    }
}

pub(crate) fn string_field(value: Option<&Json>) -> (result: Option<String>)
    ensures
        text_option(result) == text_field(json_ref_option(value)),
{
    match value {
        Some(Json::Text(text)) => Some(text.clone()),
        _ => None,
    }
}

/// The text of a field, or the empty text where there is none.
pub(crate) fn string_field_or_empty(value: Option<&Json>) -> (result: String)
    ensures
        result@ == text_or_empty(text_field(json_ref_option(value))),
{
    match value {
        Some(Json::Text(text)) => text.clone(),
        _ => String::new(),
    }
}

pub(crate) fn integer_field(value: Option<&Json>) -> (result: Option<i64>)
    ensures
        result == integer(json_ref_option(value)),
{
    match value {
        Some(Json::Number(number)) => match (number.signed, number.unsigned, number.double) {
            (Some(signed), _, _) => Some(signed),
            (None, Some(unsigned), _) if unsigned <= 0x7FFF_FFFF_FFFF_FFFF => Some(unsigned as i64),
            (None, _, Some(double)) => Some(double.to_i64()),
            _ => None,
        },
        Some(Json::Text(text)) => match parse_numeric_string(text.as_str()) {
            Some(double) => Some(double.to_i64()),
            None => None,
        },
        _ => None,
    }
}

pub(crate) fn unsigned_field(value: Option<&Json>) -> (result: Option<u64>)
    ensures
        result == unsigned(json_ref_option(value)),
{
    match value {
        Some(Json::Number(number)) => match (number.unsigned, number.signed, number.double) {
            (Some(unsigned), _, _) => Some(unsigned),
            (None, Some(signed), _) if signed >= 0 => Some(signed as u64),
            (None, _, Some(double)) if double.is_finite_and_at_least_zero() => Some(
                double.to_u64(),
            ),
            _ => None,
        },
        Some(Json::Text(text)) => match parse_numeric_string(text.as_str()) {
            Some(double) => if double.is_finite_and_at_least_zero() {
                Some(double.to_u64())
            } else {
                None
            },
            None => None,
        },
        _ => None,
    }
}

pub(crate) fn float_field(value: Option<&Json>) -> (result: Option<Double>)
    ensures
        result == double(json_ref_option(value)),
{
    match value {
        Some(Json::Number(number)) => match (number.double, number.signed, number.unsigned) {
            (Some(double), _, _) => Some(double),
            (None, Some(signed), _) => round_to_double(signed as i128),
            (None, None, Some(unsigned)) => round_to_double(unsigned as i128),
            _ => None,
        },
        _ => None,
    }
}

pub(crate) fn flag_field(value: Option<&Json>) -> (result: Option<bool>)
    ensures
        result == bool_field(json_ref_option(value)),
{
    match value {
        Some(value) => value.as_bool(),
        None => None,
    }
}

pub open spec fn text_or_empty(text: Option<Seq<char>>) -> Seq<char> {
    match text {
        Some(text) => text,
        None => Seq::empty(),
    }
}

} // verus!
