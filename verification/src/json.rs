//! A parsed JSON document, and the lookups that sprite sheets need.

use vstd::prelude::*;
use vstd::string::StrSliceExecFns;

verus! {

/// One value of a parsed JSON document.
#[derive(Debug)]
pub enum JsonValue {
    /// `null`.
    Null,
    /// `true` or `false`.
    Boolean(bool),
    /// A number, holding its text as written in the document.
    Number(String),
    /// A string, with its escape sequences decoded.
    String(String),
    /// An array of values.
    Array(Vec<JsonValue>),
    /// An object: its entries in the order they were written.
    Object(Vec<JsonEntry>),
}

/// A key and its value inside a JSON object.
#[derive(Debug)]
pub struct JsonEntry {
    /// The key, with its escape sequences decoded.
    pub key: String,
    /// The value.
    pub value: JsonValue,
}

/// Whether `c` is an ASCII decimal digit.
pub open spec fn is_digit(c: char) -> bool {
    '0' <= c <= '9'
}

/// The value of a run of decimal digits.
pub open spec fn digits_value(s: Seq<char>) -> int
    decreases s.len(),
{
    if s.len() == 0 {
        0
    } else {
        digits_value(s.drop_last()) * 10 + (s.last() as int - '0' as int)
    }
}

/// The digits of an unsigned number: the text with one leading `+` removed.
pub open spec fn unsigned_digits(s: Seq<char>) -> Seq<char> {
    if s.len() > 0 && s[0] == '+' {
        s.drop_first()
    } else {
        s
    }
}

/// How the standard library reads `s` as an unsigned integer no larger than
/// `max`: an optional `+`, then one or more decimal digits whose value does
/// not exceed `max`.
pub open spec fn parse_unsigned(s: Seq<char>, max: int) -> Option<int> {
    let d = unsigned_digits(s);
    if d.len() == 0 || exists|i: int| 0 <= i < d.len() && !is_digit(#[trigger] d[i]) {
        None
    } else if digits_value(d) > max {
        None
    } else {
        Some(digits_value(d))
    }
}

/// Appending a digit never makes a number smaller.
proof fn lemma_digits_value_grows(s: Seq<char>, n: int)
    requires
        0 <= n <= s.len(),
        forall|i: int| 0 <= i < s.len() ==> is_digit(#[trigger] s[i]),
    ensures
        0 <= digits_value(s.subrange(0, n)) <= digits_value(s),
    decreases s.len() - n,
{
    if n < s.len() {
        lemma_digits_value_grows(s, n + 1);
        let p = s.subrange(0, n + 1);
        assert(p.drop_last() =~= s.subrange(0, n));
        assert(is_digit(s[n]));
    } else {
        assert(s.subrange(0, n) =~= s);
        lemma_digits_value_nonneg(s);
    }
}

proof fn lemma_digits_value_nonneg(s: Seq<char>)
    requires
        forall|i: int| 0 <= i < s.len() ==> is_digit(#[trigger] s[i]),
    ensures
        digits_value(s) >= 0,
    decreases s.len(),
{
    if s.len() > 0 {
        let p = s.drop_last();
        assert forall|i: int| 0 <= i < p.len() implies is_digit(#[trigger] p[i]) by {
            assert(p[i] == s[i]);
        }
        lemma_digits_value_nonneg(p);
        assert(is_digit(s[s.len() - 1]));
    }
}

/// Reads the characters `from..to` of `text` as an unsigned integer no larger
/// than `max`, as the standard library does.
pub fn parse_unsigned_range(text: &str, from: usize, to: usize, max: u64) -> (r: Option<u64>)
    requires
        from <= to <= text@.len(),
    ensures
        r matches Some(v) ==> parse_unsigned(text@.subrange(from as int, to as int), max as int)
            == Some(v as int),
        r is None ==> parse_unsigned(text@.subrange(from as int, to as int), max as int) is None,
{
    let ghost s = text@.subrange(from as int, to as int);
    let mut start = from;
    if from < to && text.get_char(from) == '+' {
        start = from + 1;
    }
    let ghost d = text@.subrange(start as int, to as int);
    assert(d =~= unsigned_digits(s));
    if start == to {
        return None;
    }
    let mut value: u128 = 0;
    let mut i = start;
    while i < to
        invariant
            from <= start <= i <= to <= text@.len(),
            start < to,
            d == text@.subrange(start as int, to as int),
            d == unsigned_digits(s),
            s == text@.subrange(from as int, to as int),
            forall|j: int| 0 <= j < i - start ==> is_digit(#[trigger] d[j]),
            value == digits_value(d.subrange(0, i - start)),
            value <= max,
        decreases to - i,
    {
        let c = text.get_char(i);
        assert(c == d[i - start]);
        if c < '0' || c > '9' {
            return None;
        }
        let digit = (c as u32 - '0' as u32) as u128;
        proof {
            let p = d.subrange(0, i - start + 1);
            assert(p.drop_last() =~= d.subrange(0, i - start));
            assert(p.last() == c);
        }
        value = value * 10 + digit;
        if value > max as u128 {
            proof {
                assert forall|j: int| 0 <= j < i - start + 1 implies is_digit(#[trigger] d[j]) by {
                    if j == i - start {
                        assert(d[j] == c);
                    }
                }
                if forall|j: int| 0 <= j < d.len() ==> is_digit(#[trigger] d[j]) {
                    lemma_digits_value_grows(d, i - start + 1);
                }
            }
            return None;
        }
        i = i + 1;
    }
    assert(d.subrange(0, d.len() as int) =~= d);
    Some(value as u64)
}

/// The value stored under `key` in the object `entries`: the first entry
/// with that key.
pub open spec fn object_get(entries: Seq<JsonEntry>, key: Seq<char>) -> Option<JsonValue>
    decreases entries.len(),
{
    if entries.len() == 0 {
        None
    } else if entries[0].key@ == key {
        Some(entries[0].value)
    } else {
        object_get(entries.drop_first(), key)
    }
}

/// The value stored under `key`, when `value` is an object.
pub open spec fn json_get(value: JsonValue, key: Seq<char>) -> Option<JsonValue> {
    match value {
        JsonValue::Object(entries) => object_get(entries@, key),
        _ => None,
    }
}

/// A number read as an unsigned integer no larger than `max`, when `value`
/// is a number.
pub open spec fn json_unsigned(value: JsonValue, max: int) -> Option<int> {
    match value {
        JsonValue::Number(text) => parse_unsigned(text@, max),
        _ => None,
    }
}

/// The text of `value`, when it is a string.
pub open spec fn json_string(value: JsonValue) -> Option<Seq<char>> {
    match value {
        JsonValue::String(text) => Some(text@),
        _ => None,
    }
}

/// The value stored under `key` in the object `entries`: the first entry
/// with that key.
pub fn object_lookup<'a>(entries: &'a Vec<JsonEntry>, key: &String) -> (r: Option<&'a JsonValue>)
    ensures
        r matches Some(v) ==> object_get(entries@, key@) == Some(*v),
        r is None ==> object_get(entries@, key@) is None,
{
    let n = entries.len();
    let mut i: usize = 0;
    assert(entries@.subrange(0, n as int) =~= entries@);
    while i < n
        invariant
            n == entries@.len(),
            i <= n,
            object_get(entries@, key@) == object_get(entries@.subrange(i as int, n as int), key@),
        decreases n - i,
    {
        let ghost rest = entries@.subrange(i as int, n as int);
        assert(rest[0] == entries@[i as int]);
        assert(rest.drop_first() =~= entries@.subrange(i + 1, n as int));
        if entries[i].key == *key {
            assert(object_get(rest, key@) == Some(rest[0].value));
            return Some(&entries[i].value);
        }
        i = i + 1;
    }
    assert(entries@.subrange(n as int, n as int).len() == 0);
    None
}

impl JsonValue {
    /// The value stored under `key`, if this is an object holding that key.
    pub fn get(&self, key: &String) -> (r: Option<&JsonValue>)
        ensures
            r matches Some(v) ==> json_get(*self, key@) == Some(*v),
            r is None ==> json_get(*self, key@) is None,
    {
        match self {
            JsonValue::Object(entries) => object_lookup(entries, key),
            _ => None,
        }
    }

    /// This number as an unsigned integer no larger than `max`.
    fn as_unsigned(&self, max: u64) -> (r: Option<u64>)
        ensures
            r matches Some(v) ==> json_unsigned(*self, max as int) == Some(v as int),
            r is None ==> json_unsigned(*self, max as int) is None,
    {
        match self {
            JsonValue::Number(text) => {
                let t = text.as_str();
                let n = t.unicode_len();
                assert(t@.subrange(0, n as int) =~= t@);
                parse_unsigned_range(t, 0, n, max)
            },
            _ => None,
        }
    }

    /// This number as a `u32`, when it is written as one.
    pub fn as_u32(&self) -> (r: Option<u32>)
        ensures
            r matches Some(v) ==> json_unsigned(*self, u32::MAX as int) == Some(v as int),
            r is None ==> json_unsigned(*self, u32::MAX as int) is None,
    {
        match self.as_unsigned(u32::MAX as u64) {
            Some(v) => Some(v as u32),
            None => None,
        }
    }

    /// This number as a `u64`, when it is written as one.
    pub fn as_u64(&self) -> (r: Option<u64>)
        ensures
            r matches Some(v) ==> json_unsigned(*self, u64::MAX as int) == Some(v as int),
            r is None ==> json_unsigned(*self, u64::MAX as int) is None,
    {
        self.as_unsigned(u64::MAX)
    }

    /// This number as a `usize`, when it is written as one.
    pub fn as_usize(&self) -> (r: Option<usize>)
        ensures
            r matches Some(v) ==> json_unsigned(*self, usize::MAX as int) == Some(v as int),
            r is None ==> json_unsigned(*self, usize::MAX as int) is None,
    {
        match self.as_unsigned(usize::MAX as u64) {
            Some(v) => Some(v as usize),
            None => None,
        }
    }

    /// The text of this value, if it is a string.
    pub fn as_string(&self) -> (r: Option<&String>)
        ensures
            r matches Some(s) ==> *self == JsonValue::String(*s) && json_string(*self) == Some(s@),
            r is None ==> json_string(*self) is None,
    {
        match self {
            JsonValue::String(text) => Some(text),
            _ => None,
        }
    }
}

#[verifier::external_type_specification]
#[verifier::external_body]
pub struct ExParsedJson<'a>(justjson::Value<'a>);

/// The document that `justjson` parses from the text `text`, converted into
/// a [`JsonValue`]; `None` where the parser refuses the text: where it is not
/// valid JSON, or nests arrays and objects deeper than the parser's limit of
/// 128 levels.
pub uninterp spec fn parsed_json(text: Seq<char>) -> Option<JsonValue>;

/// Converts a value parsed by `justjson` into a [`JsonValue`], variant by
/// variant: each number keeps its source text (`JsonNumber::source`) and each
/// string is decoded (`JsonString`'s `Display`).
#[verifier::external_body]
fn convert_parsed(value: &justjson::Value<'_>) -> JsonValue {
    match value {
        justjson::Value::Null => JsonValue::Null,
        justjson::Value::Boolean(b) => JsonValue::Boolean(*b),
        justjson::Value::Number(n) => JsonValue::Number(n.source().to_string()),
        justjson::Value::String(s) => JsonValue::String(s.to_string()),
        justjson::Value::Array(values) => JsonValue::Array(values.iter().map(convert_parsed).collect()),
        justjson::Value::Object(object) => JsonValue::Object(
            object.iter().map(|e| JsonEntry { key: e.key.to_string(), value: convert_parsed(&e.value) }).collect(),
        ),
    }
}

/// Calls `justjson::Value::from_json`, which parses `text` as one JSON
/// document, and converts what it parsed. The parsed document depends on the
/// text alone, and is named [`parsed_json`]; the error is `justjson`'s own.
#[verifier::external_body]
pub(crate) fn parse_json(text: &str) -> (r: Result<JsonValue, justjson::Error>)
    ensures
        r matches Ok(v) ==> parsed_json(text@) == Some(v),
        r is Err <==> parsed_json(text@) is None,
{
    justjson::Value::from_json(text).map(|value| convert_parsed(&value))
}

} // verus!
