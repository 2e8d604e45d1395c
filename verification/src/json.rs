//! JSON values as the host's messages carry them: the same shape as a parsed JSON
//! document, with numbers kept in the three forms a JSON parser distinguishes.
use vstd::prelude::*;
use crate::text::{decimal, push_decimal, push_signed_decimal, signed_decimal, str_eq};

verus! {

/// A JSON number: a non-negative integer, a negative integer, or a finite float.
/// A float is kept as its IEEE-754 bit pattern together with its shortest
/// round-trip decimal text (the text a JSON writer prints for it).
pub enum JsonNumber {
    PosInt(u64),
    NegInt(i64),
    Float { bits: u64, text: String },
}

/// A JSON value.
pub enum JsonValue {
    Null,
    Bool(bool),
    Number(JsonNumber),
    String(String),
    Array(Vec<JsonValue>),
    Object(Vec<(String, JsonValue)>),
}

/// A number as a mathematical value: its form and, for a float, its bits and text.
pub enum NumberView {
    PosInt(u64),
    NegInt(i64),
    Float(u64, Seq<char>),
}

/// What a value is at its top level: a scalar with its contents, or a compound value.
pub enum JsonShallow {
    Null,
    Bool(bool),
    Number(NumberView),
    Str(Seq<char>),
    Array,
    Object,
}

impl View for JsonNumber {
    type V = NumberView;

    open spec fn view(&self) -> NumberView {
        match *self {
            JsonNumber::PosInt(u) => NumberView::PosInt(u),
            JsonNumber::NegInt(i) => NumberView::NegInt(i),
            JsonNumber::Float { bits, text } => NumberView::Float(bits, text@),
        }
    }
}

/// The top level of a value.
pub open spec fn shallow(v: JsonValue) -> JsonShallow {
    match v {
        JsonValue::Null => JsonShallow::Null,
        JsonValue::Bool(b) => JsonShallow::Bool(b),
        JsonValue::Number(n) => JsonShallow::Number(n@),
        JsonValue::String(s) => JsonShallow::Str(s@),
        JsonValue::Array(_) => JsonShallow::Array,
        JsonValue::Object(_) => JsonShallow::Object,
    }
}

/// `v` is an object whose entries, in order, have these keys and these top-level values.
pub open spec fn object_shallow_is(v: JsonValue, entries: Seq<(Seq<char>, JsonShallow)>) -> bool {
    match v {
        JsonValue::Object(es) => {
            &&& es@.len() == entries.len()
            &&& forall|i: int|
                0 <= i < entries.len() ==> (#[trigger] es@[i]).0@ == entries[i].0 && shallow(es@[i].1)
                    == entries[i].1
        },
        _ => false,
    }
}

/// The string value (or `null`) for an optional text.
pub open spec fn shallow_opt_str(s: Option<Seq<char>>) -> JsonShallow {
    match s {
        Some(t) => JsonShallow::Str(t),
        None => JsonShallow::Null,
    }
}

/// Appends an entry to the entries of an object under construction.
pub fn push_entry(es: &mut Vec<(String, JsonValue)>, key: &str, value: JsonValue)
    ensures
        final(es)@.len() == old(es)@.len() + 1,
        forall|i: int| 0 <= i < old(es)@.len() ==> #[trigger] final(es)@[i] == old(es)@[i],
        final(es)@[old(es)@.len() as int].0@ == key@,
        final(es)@[old(es)@.len() as int].1 == value,
{
    es.push((key.to_owned(), value));
}

/// The printed text of a number: decimal for integers, the stored text for floats.
pub open spec fn number_text(n: JsonNumber) -> Seq<char> {
    match n {
        JsonNumber::PosInt(u) => decimal(u as nat),
        JsonNumber::NegInt(i) => signed_decimal(i as int),
        JsonNumber::Float { bits, text } => text@,
    }
}

/// The value of the first entry whose key is `key`.
pub open spec fn lookup_entry(entries: Seq<(String, JsonValue)>, key: Seq<char>) -> Option<JsonValue>
    decreases entries.len(),
{
    if entries.len() == 0 {
        None
    } else if entries[0].0@ == key {
        Some(entries[0].1)
    } else {
        lookup_entry(entries.drop_first(), key)
    }
}

/// The member `key` of an object; `None` for a missing member or a value that is not an object.
pub open spec fn json_get(v: JsonValue, key: Seq<char>) -> Option<JsonValue> {
    match v {
        JsonValue::Object(entries) => lookup_entry(entries@, key),
        _ => None,
    }
}

/// The text of a string value.
pub open spec fn json_as_str(v: Option<JsonValue>) -> Option<Seq<char>> {
    match v {
        Some(JsonValue::String(s)) => Some(s@),
        _ => None,
    }
}

/// A boolean value.
pub open spec fn json_as_bool(v: Option<JsonValue>) -> Option<bool> {
    match v {
        Some(JsonValue::Bool(b)) => Some(b),
        _ => None,
    }
}

/// An integer that fits in `i64`.
pub open spec fn json_as_i64(v: Option<JsonValue>) -> Option<i64> {
    match v {
        Some(JsonValue::Number(JsonNumber::PosInt(u))) => if u <= i64::MAX {
            Some(u as i64)
        } else {
            None
        },
        Some(JsonValue::Number(JsonNumber::NegInt(i))) => Some(i),
        _ => None,
    }
}

/// A non-negative integer.
pub open spec fn json_as_u64(v: Option<JsonValue>) -> Option<u64> {
    match v {
        Some(JsonValue::Number(JsonNumber::PosInt(u))) => Some(u),
        _ => None,
    }
}

/// A number of any form.
pub open spec fn json_as_number(v: Option<JsonValue>) -> Option<JsonNumber> {
    match v {
        Some(JsonValue::Number(n)) => Some(n),
        _ => None,
    }
}

/// The keys of an object's entries, in order.
pub open spec fn entry_keys(entries: Seq<(String, JsonValue)>) -> Seq<Seq<char>> {
    entries.map_values(|e: (String, JsonValue)| e.0@)
}

/// `v` is an object whose entries have exactly these keys and values, in this order.
pub open spec fn object_is(v: JsonValue, keys: Seq<Seq<char>>, vals: Seq<JsonValue>) -> bool {
    match v {
        JsonValue::Object(entries) => {
            &&& entries@.len() == keys.len()
            &&& keys.len() == vals.len()
            &&& forall|i: int| 0 <= i < keys.len() ==> (#[trigger] entries@[i]).0@ == keys[i] && entries@[i].1 == vals[i]
        },
        _ => false,
    }
}

/// The JSON form of a 32-bit signed integer: non-negative ones are `PosInt`.
pub open spec fn i64_number(i: i64) -> JsonNumber {
    if i < 0 {
        JsonNumber::NegInt(i)
    } else {
        JsonNumber::PosInt(i as u64)
    }
}

impl JsonNumber {
    /// A copy of this number.
    pub fn duplicate(&self) -> (r: JsonNumber)
        ensures
            r == *self,
    {
        match self {
            JsonNumber::PosInt(u) => JsonNumber::PosInt(*u),
            JsonNumber::NegInt(i) => JsonNumber::NegInt(*i),
            JsonNumber::Float { bits, text } => JsonNumber::Float { bits: *bits, text: text.clone() },
        }
    }

    /// Appends the printed text of this number.
    pub fn push_text(&self, out: &mut String)
        ensures
            final(out)@ == old(out)@ + number_text(*self),
    {
        match self {
            JsonNumber::PosInt(u) => push_decimal(out, *u),
            JsonNumber::NegInt(i) => push_signed_decimal(out, *i),
            JsonNumber::Float { bits, text } => {
                let n = text.as_str();
                let cs = crate::text::chars_of(n);
                let len = cs.len();
                for k in 0..len
                    invariant
                        len == cs@.len(),
                        cs@ == text@,
                        out@ == old(out)@ + cs@.take(k as int),
                {
                    crate::text::string_push(out, cs[k]);
                    proof {
                        assert(cs@.take(k + 1) =~= cs@.take(k as int).push(cs@[k as int]));
                        assert(out@ =~= old(out)@ + cs@.take(k + 1));
                    }
                }
                proof {
                    assert(cs@.take(len as int) =~= cs@);
                }
            },
        }
    }

    /// The number for a signed integer.
    pub fn from_i64(i: i64) -> (r: JsonNumber)
        ensures
            r == i64_number(i),
    {
        if i < 0 {
            JsonNumber::NegInt(i)
        } else {
            JsonNumber::PosInt(i as u64)
        }
    }
}

impl JsonValue {
    /// The member `key` of this object (`None` when missing or when this is not an object).
    pub fn get(&self, key: &str) -> (r: Option<&JsonValue>)
        ensures
            match r {
                Some(v) => json_get(*self, key@) == Some(*v),
                None => json_get(*self, key@) is None,
            },
    {
        match self {
            JsonValue::Object(entries) => {
                let n = entries.len();
                let mut i: usize = 0;
                proof {
                    assert(entries@.subrange(0, n as int) =~= entries@);
                }
                while i < n
                    invariant
                        i <= n,
                        n == entries@.len(),
                        *self == JsonValue::Object(*entries),
                        lookup_entry(entries@, key@) == lookup_entry(entries@.subrange(i as int, n as int), key@),
                    decreases n - i,
                {
                    proof {
                        assert(entries@.subrange(i as int, n as int).drop_first() =~= entries@.subrange(i + 1, n as int));
                        assert(entries@.subrange(i as int, n as int)[0] == entries@[i as int]);
                    }
                    if str_eq(entries[i].0.as_str(), key) {
                        let r = &entries[i].1;
                        proof {
                            assert(lookup_entry(entries@.subrange(i as int, n as int), key@) == Some(entries@[i as int].1));
                            assert(*r == entries@[i as int].1);
                            assert(json_get(*self, key@) == lookup_entry(entries@, key@));
                        }
                        return Some(r);
                    }
                    i = i + 1;
                }
                None
            },
            _ => None,
        }
    }

    /// The text of this value if it is a string.
    pub fn as_str(&self) -> (r: Option<&str>)
        ensures
            match r {
                Some(s) => json_as_str(Some(*self)) == Some(s@),
                None => json_as_str(Some(*self)) is None,
            },
    {
        match self {
            JsonValue::String(s) => Some(s.as_str()),
            _ => None,
        }
    }

    /// This value if it is a boolean.
    pub fn as_bool(&self) -> (r: Option<bool>)
        ensures
            r == json_as_bool(Some(*self)),
    {
        match self {
            JsonValue::Bool(b) => Some(*b),
            _ => None,
        }
    }

    /// This value if it is an integer that fits in `i64`.
    pub fn as_i64(&self) -> (r: Option<i64>)
        ensures
            r == json_as_i64(Some(*self)),
    {
        match self {
            JsonValue::Number(JsonNumber::PosInt(u)) => if *u <= 9223372036854775807u64 {
                Some(*u as i64)
            } else {
                None
            },
            JsonValue::Number(JsonNumber::NegInt(i)) => Some(*i),
            _ => None,
        }
    }

    /// This value if it is a non-negative integer.
    pub fn as_u64(&self) -> (r: Option<u64>)
        ensures
            r == json_as_u64(Some(*self)),
    {
        match self {
            JsonValue::Number(JsonNumber::PosInt(u)) => Some(*u),
            _ => None,
        }
    }

    /// This value if it is a number.
    pub fn as_number(&self) -> (r: Option<&JsonNumber>)
        ensures
            match r {
                Some(n) => json_as_number(Some(*self)) == Some(*n),
                None => json_as_number(Some(*self)) is None,
            },
    {
        match self {
            JsonValue::Number(n) => Some(n),
            _ => None,
        }
    }

    /// A string value holding a copy of `s`.
    pub fn from_str(s: &String) -> (r: JsonValue)
        ensures
            r == JsonValue::String(*s),
    {
        JsonValue::String(s.clone())
    }

    /// A string value, or `null` for `None`.
    pub fn from_opt_str(s: &Option<String>) -> (r: JsonValue)
        ensures
            r == (match *s {
                Some(t) => JsonValue::String(t),
                None => JsonValue::Null,
            }),
    {
        match s {
            Some(t) => JsonValue::String(t.clone()),
            None => JsonValue::Null,
        }
    }
}

/// The value found by looking up `key` and reading a string, as `v.get(key).and_then(as_str)` does.
pub fn get_str<'a>(v: &'a JsonValue, key: &str) -> (r: Option<&'a str>)
    ensures
        match r {
            Some(s) => json_as_str(json_get(*v, key@)) == Some(s@),
            None => json_as_str(json_get(*v, key@)) is None,
        },
{
    match v.get(key) {
        Some(x) => x.as_str(),
        None => None,
    }
}

/// `v.get(key).and_then(as_bool)`.
pub fn get_bool(v: &JsonValue, key: &str) -> (r: Option<bool>)
    ensures
        r == json_as_bool(json_get(*v, key@)),
{
    match v.get(key) {
        Some(x) => x.as_bool(),
        None => None,
    }
}

/// `v.get(key).and_then(as_i64)`.
pub fn get_i64(v: &JsonValue, key: &str) -> (r: Option<i64>)
    ensures
        r == json_as_i64(json_get(*v, key@)),
{
    match v.get(key) {
        Some(x) => x.as_i64(),
        None => None,
    }
}

/// `v.get(key).and_then(as_u64)`.
pub fn get_u64(v: &JsonValue, key: &str) -> (r: Option<u64>)
    ensures
        r == json_as_u64(json_get(*v, key@)),
{
    match v.get(key) {
        Some(x) => x.as_u64(),
        None => None,
    }
}

/// `v.get(key)` when it is a number.
pub fn get_number<'a>(v: &'a JsonValue, key: &str) -> (r: Option<&'a JsonNumber>)
    ensures
        match r {
            Some(n) => json_as_number(json_get(*v, key@)) == Some(*n),
            None => json_as_number(json_get(*v, key@)) is None,
        },
{
    match v.get(key) {
        Some(x) => x.as_number(),
        None => None,
    }
}

} // verus!
