//! The JSON data model of the assembler: a tagged value, an array and an
//! ordered object, together with the text rendering and truthiness rules that
//! the binding passes use. Parsing is delegated to serde_json behind a
//! trusted boundary; everything that reads the parsed data is verified.

use vstd::prelude::*;
use crate::text::{to_chars, chars_to_string, lower_seq};
use crate::template_utils::chars_eq;

verus! {

/// A JSON value. An integral number is kept distinct from a non-integral
/// one; a non-integral number carries its decimal rendering, fixed at parse
/// time.
pub enum JsonValue {
    Null,
    Bool(bool),
    Integer(i64),
    Number(String),
    String(String),
    Array(JsonArray),
    Object(JsonObject),
}

/// A JSON array.
pub struct JsonArray {
    pub items: Vec<JsonValue>,
}

/// A JSON object: an ordered mapping from string keys to values, in the
/// order fixed at construction.
pub struct JsonObject {
    pub entries: Vec<(String, JsonValue)>,
}

// ---------------------------------------------------------------------------
// Rendering a scalar value as text.
// ---------------------------------------------------------------------------

/// The decimal digits of a natural number, most significant first.
pub open spec fn spec_nat_chars(n: nat) -> Seq<char>
    decreases n,
{
    if n < 10 {
        seq![((48 + n) as u8) as char]
    } else {
        spec_nat_chars(n / 10) + seq![((48 + n % 10) as u8) as char]
    }
}

/// The decimal rendering of a signed integer.
pub open spec fn spec_i64_chars(i: int) -> Seq<char> {
    if i < 0 {
        seq!['-'] + spec_nat_chars((-i) as nat)
    } else {
        spec_nat_chars(i as nat)
    }
}

/// Relies on `i64`'s `Display`: decimal digits, with a leading `-` for a
/// negative value.
#[verifier::external_body]
pub fn i64_to_string(i: i64) -> (r: String)
    ensures
        r@ == spec_i64_chars(i as int),
{
    i.to_string()
}

/// The text a scalar value substitutes: strings verbatim, integers in
/// decimal, non-integral numbers by their parse-time rendering, booleans as
/// `true` or `false`; null, arrays and objects yield the empty string.
pub open spec fn spec_value_text(v: JsonValue) -> Seq<char> {
    match v {
        JsonValue::String(s) => s@,
        JsonValue::Integer(i) => spec_i64_chars(i as int),
        JsonValue::Number(t) => t@,
        JsonValue::Bool(b) => if b {
            "true"@
        } else {
            "false"@
        },
        _ => Seq::<char>::empty(),
    }
}

/// Render a value as substitution text.
pub fn value_text(v: &JsonValue) -> (r: String)
    ensures
        r@ == spec_value_text(*v),
{
    match v {
        JsonValue::String(s) => s.clone(),
        JsonValue::Integer(i) => i64_to_string(*i),
        JsonValue::Number(t) => t.clone(),
        JsonValue::Bool(b) => {
            if *b {
                let v = to_chars("true");
                chars_to_string(&v)
            } else {
                let v = to_chars("false");
                chars_to_string(&v)
            }
        },
        _ => {
            let v: Vec<char> = Vec::new();
            chars_to_string(&v)
        },
    }
}

// ---------------------------------------------------------------------------
// Truthiness.
// ---------------------------------------------------------------------------

/// A rendered number is non-zero exactly when a non-zero digit occurs in its
/// mantissa, before any exponent marker.
pub open spec fn spec_mantissa_nonzero(s: Seq<char>, i: int) -> bool
    decreases s.len() - i,
{
    if i < 0 || i >= s.len() {
        false
    } else if s[i] == 'e' || s[i] == 'E' {
        false
    } else if 49 <= s[i] as u32 && s[i] as u32 <= 57 {
        true
    } else {
        spec_mantissa_nonzero(s, i + 1)
    }
}

fn mantissa_nonzero(s: &Vec<char>, i: usize) -> (r: bool)
    requires
        i <= s@.len(),
    ensures
        r == spec_mantissa_nonzero(s@, i as int),
    decreases s@.len() - i,
{
    if i >= s.len() {
        false
    } else if s[i] == 'e' || s[i] == 'E' {
        false
    } else {
        let u = s[i] as u32;
        if 49 <= u && u <= 57 {
            true
        } else {
            mantissa_nonzero(s, i + 1)
        }
    }
}

/// Truthiness of a value under a conditional block: a boolean is itself, a
/// number is its being non-zero, a string parses as a boolean when it spells
/// one and otherwise counts as true when non-empty, and anything else is
/// false.
pub open spec fn spec_truthy(v: JsonValue) -> bool {
    match v {
        JsonValue::Bool(b) => b,
        JsonValue::Integer(i) => i != 0,
        JsonValue::Number(t) => spec_mantissa_nonzero(t@, 0),
        JsonValue::String(s) => if s@ == "true"@ {
            true
        } else if s@ == "false"@ {
            false
        } else {
            s@.len() > 0
        },
        _ => false,
    }
}

/// Truthiness of a value under a conditional block.
pub fn truthy(v: &JsonValue) -> (r: bool)
    ensures
        r == spec_truthy(*v),
{
    match v {
        JsonValue::Bool(b) => *b,
        JsonValue::Integer(i) => *i != 0,
        JsonValue::Number(t) => {
            let tv = to_chars(t.as_str());
            mantissa_nonzero(&tv, 0)
        },
        JsonValue::String(s) => {
            let sv = to_chars(s.as_str());
            let tl = to_chars("true");
            let fl = to_chars("false");
            if chars_eq(&sv, &tl) {
                true
            } else if chars_eq(&sv, &fl) {
                false
            } else {
                sv.len() > 0
            }
        },
        _ => false,
    }
}

// ---------------------------------------------------------------------------
// The value accessors.
// ---------------------------------------------------------------------------

impl JsonValue {
    /// The object held by an object value.
    pub fn as_object(&self) -> (r: Option<&JsonObject>)
        ensures
            match r {
                Some(o) => *self matches JsonValue::Object(inner) && *o == inner,
                None => !(*self matches JsonValue::Object(_)),
            },
    {
        match self {
            JsonValue::Object(o) => Some(o),
            _ => None,
        }
    }

    /// The array held by an array value.
    pub fn as_array(&self) -> (r: Option<&JsonArray>)
        ensures
            match r {
                Some(a) => *self matches JsonValue::Array(inner) && *a == inner,
                None => !(*self matches JsonValue::Array(_)),
            },
    {
        match self {
            JsonValue::Array(a) => Some(a),
            _ => None,
        }
    }

    /// The text held by a string value.
    pub fn as_str(&self) -> (r: Option<&String>)
        ensures
            match r {
                Some(s) => *self matches JsonValue::String(inner) && *s == inner,
                None => !(*self matches JsonValue::String(_)),
            },
    {
        match self {
            JsonValue::String(s) => Some(s),
            _ => None,
        }
    }

    /// The boolean held by a boolean value.
    pub fn as_bool(&self) -> (r: Option<bool>)
        ensures
            match r {
                Some(b) => *self == JsonValue::Bool(b),
                None => !(*self matches JsonValue::Bool(_)),
            },
    {
        match self {
            JsonValue::Bool(b) => Some(*b),
            _ => None,
        }
    }

    /// The integer held by an integral number value.
    pub fn as_i64(&self) -> (r: Option<i64>)
        ensures
            match r {
                Some(i) => *self == JsonValue::Integer(i),
                None => !(*self matches JsonValue::Integer(_)),
            },
    {
        match self {
            JsonValue::Integer(i) => Some(*i),
            _ => None,
        }
    }

    /// Whether the value is null.
    pub fn is_null(&self) -> (r: bool)
        ensures
            r == (*self matches JsonValue::Null),
    {
        match self {
            JsonValue::Null => true,
            _ => false,
        }
    }
}

// ---------------------------------------------------------------------------
// The array.
// ---------------------------------------------------------------------------

impl JsonArray {
    /// The empty array.
    pub fn new() -> (r: JsonArray)
        ensures
            r.items@.len() == 0,
    {
        JsonArray { items: Vec::new() }
    }

    /// Append an item.
    pub fn push(&mut self, value: JsonValue)
        ensures
            final(self).items@ == old(self).items@.push(value),
    {
        self.items.push(value);
    }

    /// The item at an index.
    pub fn get(&self, index: usize) -> (r: Option<&JsonValue>)
        ensures
            match r {
                Some(v) => index < self.items@.len() && *v == self.items@[index as int],
                None => index >= self.items@.len(),
            },
    {
        if index < self.items.len() {
            Some(&self.items[index])
        } else {
            None
        }
    }

    /// The number of items.
    pub fn len(&self) -> (r: usize)
        ensures
            r == self.items@.len(),
    {
        self.items.len()
    }

    /// Whether the array has no items.
    pub fn is_empty(&self) -> (r: bool)
        ensures
            r == (self.items@.len() == 0),
    {
        self.items.len() == 0
    }

    /// The string at an index, when that item is a string.
    pub fn get_string(&self, index: usize) -> (r: Option<&String>)
        ensures
            match r {
                Some(s) => index < self.items@.len() && self.items@[index as int]
                    == JsonValue::String(*s),
                None => !(index < self.items@.len() && self.items@[index as int]
                    matches JsonValue::String(_)),
            },
    {
        match self.get(index) {
            Some(v) => v.as_str(),
            None => None,
        }
    }

    /// The integer at an index, when that item is an integral number.
    pub fn get_i64(&self, index: usize) -> (r: Option<i64>)
        ensures
            match r {
                Some(i) => index < self.items@.len() && self.items@[index as int]
                    == JsonValue::Integer(i),
                None => !(index < self.items@.len() && self.items@[index as int]
                    matches JsonValue::Integer(_)),
            },
    {
        match self.get(index) {
            Some(v) => v.as_i64(),
            None => None,
        }
    }

    /// The boolean at an index, when that item is a boolean.
    pub fn get_bool(&self, index: usize) -> (r: Option<bool>)
        ensures
            match r {
                Some(b) => index < self.items@.len() && self.items@[index as int]
                    == JsonValue::Bool(b),
                None => !(index < self.items@.len() && self.items@[index as int]
                    matches JsonValue::Bool(_)),
            },
    {
        match self.get(index) {
            Some(v) => v.as_bool(),
            None => None,
        }
    }

    /// The array at an index, when that item is an array.
    pub fn get_array(&self, index: usize) -> (r: Option<&JsonArray>)
        ensures
            match r {
                Some(a) => index < self.items@.len() && self.items@[index as int]
                    == JsonValue::Array(*a),
                None => !(index < self.items@.len() && self.items@[index as int]
                    matches JsonValue::Array(_)),
            },
    {
        match self.get(index) {
            Some(v) => v.as_array(),
            None => None,
        }
    }

    /// The object at an index, when that item is an object.
    pub fn get_object(&self, index: usize) -> (r: Option<&JsonObject>)
        ensures
            match r {
                Some(o) => index < self.items@.len() && self.items@[index as int]
                    == JsonValue::Object(*o),
                None => !(index < self.items@.len() && self.items@[index as int]
                    matches JsonValue::Object(_)),
            },
    {
        match self.get(index) {
            Some(v) => v.as_object(),
            None => None,
        }
    }

    /// Remove and return the last item.
    pub fn pop(&mut self) -> (r: Option<JsonValue>)
        ensures
            match r {
                Some(v) => old(self).items@.len() > 0 && v == old(self).items@.last()
                    && final(self).items@ == old(self).items@.drop_last(),
                None => old(self).items@.len() == 0 && final(self).items@ == old(self).items@,
            },
    {
        self.items.pop()
    }

    /// Insert an item at an index, shifting the items after it.
    pub fn insert(&mut self, index: usize, value: JsonValue)
        requires
            index <= old(self).items@.len(),
        ensures
            final(self).items@ == old(self).items@.insert(index as int, value),
    {
        self.items.insert(index, value);
    }

    /// Remove and return the item at an index.
    pub fn remove(&mut self, index: usize) -> (r: JsonValue)
        requires
            index < old(self).items@.len(),
        ensures
            r == old(self).items@[index as int],
            final(self).items@ == old(self).items@.remove(index as int),
    {
        self.items.remove(index)
    }

    /// Drop every item.
    pub fn clear(&mut self)
        ensures
            final(self).items@.len() == 0,
    {
        self.items.clear();
    }
}

// ---------------------------------------------------------------------------
// The object.
// ---------------------------------------------------------------------------

/// The value at the first entry whose key equals `key`, scanning from `i`.
pub open spec fn spec_obj_get_from(
    entries: Seq<(String, JsonValue)>,
    key: Seq<char>,
    i: int,
) -> Option<JsonValue>
    decreases entries.len() - i,
{
    if i < 0 || i >= entries.len() {
        None
    } else if entries[i].0@ == key {
        Some(entries[i].1)
    } else {
        spec_obj_get_from(entries, key, i + 1)
    }
}

/// The value bound to a key, matching exactly.
pub open spec fn spec_obj_get(obj: JsonObject, key: Seq<char>) -> Option<JsonValue> {
    spec_obj_get_from(obj.entries@, key, 0)
}

/// The value at the first entry whose key equals `key` case-insensitively,
/// scanning from `i`.
pub open spec fn spec_obj_get_ci_from(
    entries: Seq<(String, JsonValue)>,
    key: Seq<char>,
    i: int,
) -> Option<JsonValue>
    decreases entries.len() - i,
{
    if i < 0 || i >= entries.len() {
        None
    } else if lower_seq(entries[i].0@) == lower_seq(key) {
        Some(entries[i].1)
    } else {
        spec_obj_get_ci_from(entries, key, i + 1)
    }
}

/// The value bound to a key, matching case-insensitively.
pub open spec fn spec_obj_get_ci(obj: JsonObject, key: Seq<char>) -> Option<JsonValue> {
    spec_obj_get_ci_from(obj.entries@, key, 0)
}

/// The index of the first entry whose key equals `key`, scanning from `i`.
pub open spec fn spec_obj_key_index(
    entries: Seq<(String, JsonValue)>,
    key: Seq<char>,
    i: int,
) -> Option<int>
    decreases entries.len() - i,
{
    if i < 0 || i >= entries.len() {
        None
    } else if entries[i].0@ == key {
        Some(i)
    } else {
        spec_obj_key_index(entries, key, i + 1)
    }
}

impl JsonObject {
    /// The empty object.
    pub fn new() -> (r: JsonObject)
        ensures
            r.entries@.len() == 0,
    {
        JsonObject { entries: Vec::new() }
    }

    fn get_from(&self, key: &Vec<char>, i: usize) -> (r: Option<&JsonValue>)
        requires
            i <= self.entries@.len(),
        ensures
            match r {
                Some(v) => spec_obj_get_from(self.entries@, key@, i as int) == Some(*v),
                None => spec_obj_get_from(self.entries@, key@, i as int) is None,
            },
        decreases self.entries@.len() - i,
    {
        if i >= self.entries.len() {
            return None;
        }
        let ek = to_chars(self.entries[i].0.as_str());
        if chars_eq(&ek, key) {
            Some(&self.entries[i].1)
        } else {
            self.get_from(key, i + 1)
        }
    }

    /// The value bound to a key given as characters, matching exactly.
    pub(crate) fn get_chars(&self, key: &Vec<char>) -> (r: Option<&JsonValue>)
        ensures
            match r {
                Some(v) => spec_obj_get_from(self.entries@, key@, 0) == Some(*v),
                None => spec_obj_get_from(self.entries@, key@, 0) is None,
            },
    {
        self.get_from(key, 0)
    }

    /// The value bound to a key given as characters, matching
    /// case-insensitively.
    pub(crate) fn get_ci_chars(&self, key: &Vec<char>) -> (r: Option<&JsonValue>)
        ensures
            match r {
                Some(v) => spec_obj_get_ci_from(self.entries@, key@, 0) == Some(*v),
                None => spec_obj_get_ci_from(self.entries@, key@, 0) is None,
            },
    {
        self.get_ci_from(key, 0)
    }

    /// The value bound to a key, matching exactly; the first entry wins.
    pub fn get(&self, key: &str) -> (r: Option<&JsonValue>)
        ensures
            match r {
                Some(v) => spec_obj_get(*self, key@) == Some(*v),
                None => spec_obj_get(*self, key@) is None,
            },
    {
        let kv = to_chars(key);
        self.get_from(&kv, 0)
    }

    fn get_ci_from(&self, key: &Vec<char>, i: usize) -> (r: Option<&JsonValue>)
        requires
            i <= self.entries@.len(),
        ensures
            match r {
                Some(v) => spec_obj_get_ci_from(self.entries@, key@, i as int) == Some(*v),
                None => spec_obj_get_ci_from(self.entries@, key@, i as int) is None,
            },
        decreases self.entries@.len() - i,
    {
        if i >= self.entries.len() {
            return None;
        }
        let ek = to_chars(self.entries[i].0.as_str());
        if crate::template_utils::chars_eq_ci(&ek, key) {
            Some(&self.entries[i].1)
        } else {
            self.get_ci_from(key, i + 1)
        }
    }

    /// The value bound to a key, matching case-insensitively; the first
    /// entry wins.
    pub fn get_case_insensitive(&self, key: &str) -> (r: Option<&JsonValue>)
        ensures
            match r {
                Some(v) => spec_obj_get_ci(*self, key@) == Some(*v),
                None => spec_obj_get_ci(*self, key@) is None,
            },
    {
        let kv = to_chars(key);
        self.get_ci_from(&kv, 0)
    }

    /// The string bound to a key, when the key is bound to a string.
    pub fn get_string(&self, key: &str) -> (r: Option<&String>)
        ensures
            match r {
                Some(s) => spec_obj_get(*self, key@) matches Some(v) && v == JsonValue::String(
                    *s,
                ),
                None => !(spec_obj_get(*self, key@) matches Some(v) && v matches JsonValue::String(
                    _,
                )),
            },
    {
        match self.get(key) {
            Some(v) => v.as_str(),
            None => None,
        }
    }

    /// The boolean bound to a key, when the key is bound to a boolean.
    pub fn get_bool(&self, key: &str) -> (r: Option<bool>)
        ensures
            match r {
                Some(b) => spec_obj_get(*self, key@) == Some(JsonValue::Bool(b)),
                None => !(spec_obj_get(*self, key@) matches Some(v) && v matches JsonValue::Bool(
                    _,
                )),
            },
    {
        match self.get(key) {
            Some(v) => v.as_bool(),
            None => None,
        }
    }

    /// The array bound to a key, when the key is bound to an array.
    pub fn get_array(&self, key: &str) -> (r: Option<&JsonArray>)
        ensures
            match r {
                Some(a) => spec_obj_get(*self, key@) matches Some(v) && v == JsonValue::Array(*a),
                None => !(spec_obj_get(*self, key@) matches Some(v) && v matches JsonValue::Array(
                    _,
                )),
            },
    {
        match self.get(key) {
            Some(v) => v.as_array(),
            None => None,
        }
    }

    /// Whether a key is bound, matching exactly.
    pub fn contains_key(&self, key: &str) -> (r: bool)
        ensures
            r == (spec_obj_get(*self, key@) is Some),
    {
        match self.get(key) {
            Some(_) => true,
            None => false,
        }
    }

    /// The number of entries.
    pub fn len(&self) -> (r: usize)
        ensures
            r == self.entries@.len(),
    {
        self.entries.len()
    }

    /// Whether the object has no entries.
    pub fn is_empty(&self) -> (r: bool)
        ensures
            r == (self.entries@.len() == 0),
    {
        self.entries.len() == 0
    }

    fn key_index_from(&self, key: &Vec<char>, i: usize) -> (r: Option<usize>)
        requires
            i <= self.entries@.len(),
        ensures
            match r {
                Some(j) => spec_obj_key_index(self.entries@, key@, i as int) == Some(j as int) && j
                    < self.entries@.len(),
                None => spec_obj_key_index(self.entries@, key@, i as int) is None,
            },
        decreases self.entries@.len() - i,
    {
        if i >= self.entries.len() {
            return None;
        }
        let ek = to_chars(self.entries[i].0.as_str());
        if chars_eq(&ek, key) {
            Some(i)
        } else {
            self.key_index_from(key, i + 1)
        }
    }

    /// The integer bound to a key, when the key is bound to an integral
    /// number.
    pub fn get_i64(&self, key: &str) -> (r: Option<i64>)
        ensures
            match r {
                Some(i) => spec_obj_get(*self, key@) == Some(JsonValue::Integer(i)),
                None => !(spec_obj_get(*self, key@) matches Some(v) && v
                    matches JsonValue::Integer(_)),
            },
    {
        match self.get(key) {
            Some(v) => v.as_i64(),
            None => None,
        }
    }

    /// The object bound to a key, when the key is bound to an object.
    pub fn get_object(&self, key: &str) -> (r: Option<&JsonObject>)
        ensures
            match r {
                Some(o) => spec_obj_get(*self, key@) matches Some(v) && v == JsonValue::Object(
                    *o,
                ),
                None => !(spec_obj_get(*self, key@) matches Some(v) && v
                    matches JsonValue::Object(_)),
            },
    {
        match self.get(key) {
            Some(v) => v.as_object(),
            None => None,
        }
    }

    /// The keys of the object, in entry order.
    pub fn keys(&self) -> (r: Vec<String>)
        ensures
            r@.len() == self.entries@.len(),
            forall|i: int| 0 <= i < r@.len() ==> r@[i]@ == self.entries@[i].0@,
    {
        let mut out: Vec<String> = Vec::new();
        let mut i: usize = 0;
        while i < self.entries.len()
            invariant
                i <= self.entries@.len(),
                out@.len() == i as int,
                forall|k: int| 0 <= k < i ==> out@[k]@ == self.entries@[k].0@,
            decreases self.entries@.len() - i,
        {
            out.push(self.entries[i].0.clone());
            i = i + 1;
        }
        out
    }

    /// Remove the first entry with exactly this key and return its value.
    pub fn remove(&mut self, key: &str) -> (r: Option<JsonValue>)
        ensures
            match spec_obj_key_index(old(self).entries@, key@, 0) {
                Some(i) => r == Some(old(self).entries@[i].1) && final(self).entries@ == old(
                    self,
                ).entries@.remove(i),
                None => r is None && final(self).entries@ == old(self).entries@,
            },
    {
        let kv = to_chars(key);
        match self.key_index_from(&kv, 0) {
            Some(i) => {
                let (_, v) = self.entries.remove(i);
                Some(v)
            },
            None => None,
        }
    }

    /// Drop every entry.
    pub fn clear(&mut self)
        ensures
            final(self).entries@.len() == 0,
    {
        self.entries.clear();
    }

    /// Bind a key to a value: the first entry with that exact key is
    /// replaced, or a new entry is appended at the end.
    pub fn insert(&mut self, key: String, value: JsonValue)
        ensures
            final(self).entries@ == match spec_obj_key_index(old(self).entries@, key@, 0) {
                Some(i) => old(self).entries@.update(i, (key, value)),
                None => old(self).entries@.push((key, value)),
            },
    {
        let kv = to_chars(key.as_str());
        match self.key_index_from(&kv, 0) {
            Some(i) => {
                self.entries.remove(i);
                self.entries.insert(i, (key, value));
                assert(self.entries@ =~= old(self).entries@.update(i as int, (key, value)));
            },
            None => {
                self.entries.push((key, value));
            },
        }
    }
}

// ---------------------------------------------------------------------------
// Parsing, behind the trusted boundary.
// ---------------------------------------------------------------------------

/// What serde_json's parse yields for a document, converted to the
/// assembler's model: a function of the text alone.
pub uninterp spec fn parsed_json(s: Seq<char>) -> JsonObject;

#[verifier::external_type_specification]
#[verifier::external_body]
pub struct ExSerdeValue(serde_json::Value);

#[verifier::external_type_specification]
#[verifier::external_body]
#[verifier::reject_recursive_types(K)]
#[verifier::reject_recursive_types(V)]
pub struct ExSerdeMap<K, V>(serde_json::Map<K, V>);

/// Centralizes all JSON parsing and conversion in the assembler.
pub struct JsonConverter;

impl JsonConverter {
    /// Relies on `serde_json::from_str`: the parse of a document depends on
    /// its text alone. A document that does not parse, or whose root is not
    /// an object, yields the empty object.
    #[verifier::external_body]
    pub fn parse_json_string(json_content: &str) -> (r: JsonObject)
        ensures
            r == parsed_json(json_content@),
    {
        match serde_json::from_str::<serde_json::Value>(json_content) {
            Ok(serde_json::Value::Object(map)) => Self::normalize_json_object(map),
            _ => JsonObject { entries: Vec::new() },
        }
    }

    /// Relies on serde_json's `Map`: each entry is carried over in the map's
    /// iteration order, which serde_json fixes by key.
    #[verifier::external_body]
    pub fn normalize_json_object(serde_map: serde_json::Map<String, serde_json::Value>) -> (r:
        JsonObject)
    {
        JsonObject {
            entries: serde_map.into_iter().map(|(k, v)| (k, Self::convert_json_value(v))).collect(),
        }
    }

    /// Relies on serde_json's `Value` and `Number`: each variant is carried
    /// over; a number representable as an `i64` becomes an integer, any
    /// other number keeps its serde_json rendering as text.
    #[verifier::external_body]
    fn convert_json_value(value: serde_json::Value) -> (r: JsonValue) {
        match value {
            serde_json::Value::Null => JsonValue::Null,
            serde_json::Value::Bool(b) => JsonValue::Bool(b),
            serde_json::Value::Number(n) => match n.as_i64() {
                Some(i) => JsonValue::Integer(i),
                None => JsonValue::Number(n.to_string()),
            },
            serde_json::Value::String(s) => JsonValue::String(s),
            serde_json::Value::Array(items) => JsonValue::Array(
                JsonArray { items: items.into_iter().map(Self::convert_json_value).collect() },
            ),
            serde_json::Value::Object(map) => JsonValue::Object(Self::normalize_json_object(map)),
        }
    }

    /// The string bound to a key, or the empty string.
    pub fn get_string_value(json_object: &JsonObject, key: &str) -> (r: String)
        ensures
            r@ == match spec_obj_get(*json_object, key@) {
                Some(JsonValue::String(s)) => s@,
                _ => Seq::<char>::empty(),
            },
    {
        match json_object.get_string(key) {
            Some(s) => s.clone(),
            None => {
                let v: Vec<char> = Vec::new();
                chars_to_string(&v)
            },
        }
    }

    /// Whether a key is bound to a non-empty string.
    pub fn has_non_empty_string(json_object: &JsonObject, key: &str) -> (r: bool)
        ensures
            r == match spec_obj_get(*json_object, key@) {
                Some(JsonValue::String(s)) => s@.len() > 0,
                _ => false,
            },
    {
        match json_object.get_string(key) {
            Some(s) => s.as_str().unicode_len() > 0,
            None => false,
        }
    }
}

} // verus!
