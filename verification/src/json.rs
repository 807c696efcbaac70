//! JSON documents as plain values, read and written through `serde_json`.
//!
//! `serde_json` parses text and quotes strings; everything the records need from a document
//! (members, strings, arrays, the number one) is read here from the library's own `JsonValue`.

use vstd::prelude::*;

verus! {

/// A parsed JSON document. An object keeps its members in the order `serde_json` yields them,
/// and a number keeps the text that `serde_json::Number`'s `Display` writes for it.
#[derive(Debug, PartialEq, Eq)]
pub enum JsonValue {
    Null,
    Bool(bool),
    Number(String),
    Str(String),
    Array(Vec<JsonValue>),
    Object(Vec<(String, JsonValue)>),
}

/// `serde_json::Value`, carried through the conversion into `JsonValue`.
#[verifier::external_type_specification]
#[verifier::external_body]
pub struct ExSerdeJsonValue(serde_json::Value);

/// The document `serde_json::from_str::<serde_json::Value>` reads from a text, `None` when the
/// text is not JSON.
pub uninterp spec fn json_document(text: Seq<char>) -> Option<JsonValue>;

/// A lower-case hexadecimal digit.
pub open spec fn hex_digit(d: int) -> char {
    seq!['0', '1', '2', '3', '4', '5', '6', '7', '8', '9', 'a', 'b', 'c', 'd', 'e', 'f'][d]
}

/// One character as `serde_json` writes it inside a string literal: a quote, a backslash and
/// the control characters below U+0020 are escaped, the five with a short form by it and the
/// rest as `\u00XX`; every other character is written as it is.
pub open spec fn json_char_escape(c: char) -> Seq<char> {
    if c == '"' {
        seq!['\\', '"']
    } else if c == '\\' {
        seq!['\\', '\\']
    } else if c == '\u{8}' {
        seq!['\\', 'b']
    } else if c == '\t' {
        seq!['\\', 't']
    } else if c == '\n' {
        seq!['\\', 'n']
    } else if c == '\u{c}' {
        seq!['\\', 'f']
    } else if c == '\r' {
        seq!['\\', 'r']
    } else if (c as int) < 0x20 {
        seq!['\\', 'u', '0', '0', hex_digit((c as int) / 16), hex_digit((c as int) % 16)]
    } else {
        seq![c]
    }
}

/// The JSON string literal `serde_json::to_string` writes for a string: the escaped characters
/// between double quotes. Writing a string slice does not fail.
#[verifier::opaque]
pub open spec fn json_string_literal(text: Seq<char>) -> Option<Seq<char>> {
    Some(seq!['"'] + text.map_values(|c: char| json_char_escape(c)).flatten() + seq!['"'])
}

/// A JSON value as the library writes one: a string, a number's text, an array, or an object
/// with named members.
pub enum JsonShape {
    Str(Seq<char>),
    Number(Seq<char>),
    Array(Seq<JsonShape>),
    Object(Seq<(Seq<char>, JsonShape)>),
}

/// The compact text written for a shape: no whitespace, strings as `serde_json` quotes them,
/// each member as its quoted name, `:` and its value.
pub open spec fn shape_text(shape: JsonShape) -> Seq<char>
    decreases shape,
{
    match shape {
        JsonShape::Str(text) => json_string_literal(text)->0,
        JsonShape::Number(text) => text,
        JsonShape::Array(items) => crate::types::json_array(shape_texts(items)),
        JsonShape::Object(members) => crate::types::json_object(member_texts(members)),
    }
}

/// The texts of the items, in order.
pub open spec fn shape_texts(items: Seq<JsonShape>) -> Seq<Seq<char>>
    decreases items,
{
    if items.len() == 0 {
        seq![]
    } else {
        shape_texts(items.drop_last()).push(shape_text(items.last()))
    }
}

/// The texts of the members, in order: `"name":value`.
pub open spec fn member_texts(members: Seq<(Seq<char>, JsonShape)>) -> Seq<Seq<char>>
    decreases members,
{
    if members.len() == 0 {
        seq![]
    } else {
        member_texts(members.drop_last()).push(
            seq!['"'] + members.last().0 + seq!['"', ':'] + shape_text(members.last().1),
        )
    }
}

/// A member name that `serde_json` writes between quotes unchanged: no quote, backslash or
/// control character.
pub open spec fn plain_name(name: Seq<char>) -> bool {
    forall|i: int| 0 <= i < name.len() ==> name[i] != '"' && name[i] != '\\' && (name[i] as int) >= 0x20
}

/// Whether some member is named `name`.
pub open spec fn has_member(members: Seq<(Seq<char>, JsonShape)>, name: Seq<char>) -> bool {
    exists|i: int| 0 <= i < members.len() && #[trigger] members[i].0 == name
}

/// A shape that reads back as itself: numbers are decimal numerals of at most 64 bits, member
/// names are plain and distinct, and arrays and objects nest at most `depth` deep.
pub open spec fn writable(shape: JsonShape, depth: nat) -> bool
    decreases shape,
{
    match shape {
        JsonShape::Str(_) => true,
        JsonShape::Number(text) => exists|n: nat| n <= u64::MAX && text == crate::text::decimal(n),
        JsonShape::Array(items) => depth > 0 && all_writable(items, (depth - 1) as nat),
        JsonShape::Object(members) => depth > 0 && members_writable(members, (depth - 1) as nat)
            && forall|i: int, j: int|
            0 <= i < j < members.len() ==> #[trigger] members[i].0 != #[trigger] members[j].0,
    }
}

/// Every item is writable.
pub open spec fn all_writable(items: Seq<JsonShape>, depth: nat) -> bool
    decreases items,
{
    if items.len() == 0 {
        true
    } else {
        all_writable(items.drop_last(), depth) && writable(items.last(), depth)
    }
}

/// Every member has a plain name and a writable value.
pub open spec fn members_writable(members: Seq<(Seq<char>, JsonShape)>, depth: nat) -> bool
    decreases members,
{
    if members.len() == 0 {
        true
    } else {
        members_writable(members.drop_last(), depth) && plain_name(members.last().0) && writable(
            members.last().1,
            depth,
        )
    }
}

/// A parsed value reads as the shape: the same strings and number texts, the items in order,
/// and each member of the shape found under its name, with no other name present.
pub open spec fn reads_as(value: JsonValue, shape: JsonShape) -> bool
    decreases shape,
{
    match shape {
        JsonShape::Str(text) => value matches JsonValue::Str(s) && s@ == text,
        JsonShape::Number(text) => value matches JsonValue::Number(t) && t@ == text,
        JsonShape::Array(items) => value matches JsonValue::Array(values) && items_read_as(
            values@,
            items,
        ),
        JsonShape::Object(members) => value matches JsonValue::Object(found) && members_read_as(
            found@,
            members,
        ) && forall|name: Seq<char>|
            !has_member(members, name) ==> #[trigger] member_lookup(found@, name) is None,
    }
}

/// The values read as the items, one for one.
pub open spec fn items_read_as(values: Seq<JsonValue>, items: Seq<JsonShape>) -> bool
    decreases items,
{
    if items.len() == 0 {
        values.len() == 0
    } else {
        values.len() == items.len() && items_read_as(values.drop_last(), items.drop_last())
            && reads_as(values.last(), items.last())
    }
}

/// Each member is found under its name in `found` and reads as its shape.
pub open spec fn members_read_as(found: Seq<(String, JsonValue)>, members: Seq<(Seq<char>, JsonShape)>) -> bool
    decreases members,
{
    if members.len() == 0 {
        true
    } else {
        &&& members_read_as(found, members.drop_last())
        &&& member_lookup(found, members.last().0) matches Some(value) && reads_as(
            value,
            members.last().1,
        )
    }
}

/// What was parsed from `text` reads as any writable shape whose compact text `text` is.
pub open spec fn reads_back(text: Seq<char>, parsed: Option<JsonValue>) -> bool {
    forall|shape: JsonShape|
        #[trigger] shape_text(shape) == text && writable(shape, 100) ==> (parsed matches Some(value)
            && reads_as(value, shape))
}

/// Moves a `serde_json::Value` into a `JsonValue`, variant by variant. Nothing is claimed of it
/// beyond the contract of `parse_json_text`, its one caller.
#[verifier::external_body]
fn from_serde(value: serde_json::Value) -> JsonValue {
    match value {
        serde_json::Value::Null => JsonValue::Null,
        serde_json::Value::Bool(b) => JsonValue::Bool(b),
        serde_json::Value::Number(n) => JsonValue::Number(n.to_string()),
        serde_json::Value::String(s) => JsonValue::Str(s),
        serde_json::Value::Array(items) => JsonValue::Array(items.into_iter().map(from_serde).collect()),
        serde_json::Value::Object(map) => JsonValue::Object(
            map.into_iter().map(|(key, item)| (key, from_serde(item))).collect(),
        ),
    }
}

/// `serde_json::from_str::<serde_json::Value>`, its error dropped. The contract names the result,
/// and claims of the outside code that it reads compact JSON written as `shape_text` describes
/// back as the shape (its `de.rs` parses strings, numbers, arrays and objects as the JSON
/// grammar has them, and `Map` keeps one value per distinct name), for nesting within its
/// recursion limit of 128.
#[verifier::external_body]
fn parse_json_text(text: &str) -> (parsed: Option<JsonValue>)
    ensures
        parsed == json_document(text@),
        reads_back(text@, parsed),
{
    serde_json::from_str::<serde_json::Value>(text).ok().map(from_serde)
}

/// `serde_json::to_string` on a string slice, its error dropped. Claimed of the outside code: it
/// writes the literal `json_string_literal` states (`format_escaped_str` with the `ESCAPE` table
/// and `write_char_escape` of its `ser.rs`), and so never fails.
#[verifier::external_body]
fn quote_json_text(text: &str) -> (quoted: Option<String>)
    ensures
        quoted.deep_view() == json_string_literal(text@),
{
    serde_json::to_string(text).ok()
}

/// Parse a JSON text, `None` when it is not JSON.
pub fn decode_json(text: &str) -> (parsed: Option<JsonValue>)
    ensures
        parsed == json_document(text@),
        reads_back(text@, parsed),
{
    parse_json_text(text)
}

/// A string as a JSON string literal.
pub fn quote_json(text: &str) -> (quoted: Option<String>)
    ensures
        quoted.deep_view() == json_string_literal(text@),
{
    quote_json_text(text)
}

/// The value of the first member named `key`.
pub open spec fn member_lookup(members: Seq<(String, JsonValue)>, key: Seq<char>) -> Option<JsonValue>
    decreases members.len(),
{
    if members.len() == 0 {
        None
    } else if members[0].0@ == key {
        Some(members[0].1)
    } else {
        member_lookup(members.drop_first(), key)
    }
}

/// `Value::get` with a string key: the member of an object, `None` for anything else.
pub open spec fn json_member(value: JsonValue, key: Seq<char>) -> Option<JsonValue> {
    match value {
        JsonValue::Object(members) => member_lookup(members@, key),
        _ => None,
    }
}

/// The member reached by following `keys` from `value`.
pub open spec fn json_path(value: JsonValue, keys: Seq<Seq<char>>) -> Option<JsonValue>
    decreases keys.len(),
{
    if keys.len() == 0 {
        Some(value)
    } else {
        match json_member(value, keys[0]) {
            Some(next) => json_path(next, keys.drop_first()),
            None => None,
        }
    }
}

/// An optional borrowed value as an optional value.
pub open spec fn opt_value(value: Option<&JsonValue>) -> Option<JsonValue> {
    match value {
        Some(v) => Some(*v),
        None => None,
    }
}

/// The text of a string value.
pub open spec fn json_text(value: Option<JsonValue>) -> Option<Seq<char>> {
    match value {
        Some(JsonValue::Str(s)) => Some(s@),
        _ => None,
    }
}

/// The string member `key` of `value`.
pub open spec fn string_member(value: JsonValue, key: Seq<char>) -> Option<Seq<char>> {
    json_text(json_member(value, key))
}

/// Whether a number's text is the number one, as `1` or `1.0`.
pub open spec fn number_text_is_one(text: Seq<char>) -> bool {
    text == seq!['1'] || text == seq!['1', '.', '0']
}

/// Whether a value is the JSON number one.
pub open spec fn json_is_one(value: Option<JsonValue>) -> bool {
    match value {
        Some(JsonValue::Number(text)) => number_text_is_one(text@),
        _ => false,
    }
}

impl JsonValue {
    /// Whether the value is an object.
    pub fn is_object(&self) -> (b: bool)
        ensures
            b == (*self is Object),
    {
        match self {
            JsonValue::Object(_) => true,
            _ => false,
        }
    }

    /// `Value::get` with a string key.
    pub fn get(&self, key: &str) -> (member: Option<&JsonValue>)
        ensures
            opt_value(member) == json_member(*self, key@),
    {
        match self {
            JsonValue::Object(members) => {
                let mut i: usize = 0;
                assert(members@.skip(0) =~= members@);
                while i < members.len()
                    invariant
                        i <= members@.len(),
                        *self == JsonValue::Object(*members),
                        member_lookup(members@, key@) == member_lookup(members@.skip(i as int), key@),
                    decreases members@.len() - i,
                {
                    proof {
                        assert(members@.skip(i as int).drop_first() =~= members@.skip(i + 1));
                        assert(members@.skip(i as int)[0] == members@[i as int]);
                    }
                    if same_text(members[i].0.as_str(), key) {
                        assert(members@.skip(i as int)[0].0@ == key@);
                        assert(member_lookup(members@.skip(i as int), key@) == Some(
                            members@[i as int].1,
                        ));
                        return Some(&members[i].1);
                    }
                    i = i + 1;
                }
                None
            },
            _ => None,
        }
    }

    /// The member reached by following `keys`, as `Value::pointer` does for a path of names.
    pub fn get_path(&self, keys: &[&str]) -> (member: Option<&JsonValue>)
        ensures
            opt_value(member) == json_path(*self, keys@.map_values(|k: &str| k@)),
    {
        let ghost names = keys@.map_values(|k: &str| k@);
        let mut current: &JsonValue = self;
        let mut i: usize = 0;
        assert(names.skip(0) =~= names);
        while i < keys.len()
            invariant
                i <= keys@.len(),
                names == keys@.map_values(|k: &str| k@),
                json_path(*self, names) == json_path(*current, names.skip(i as int)),
            decreases keys@.len() - i,
        {
            proof {
                assert(names.skip(i as int)[0] == keys@[i as int]@);
                assert(names.skip(i as int).drop_first() =~= names.skip(i + 1));
            }
            match current.get(keys[i]) {
                Some(next) => {
                    current = next;
                },
                None => {
                    return None;
                },
            }
            i = i + 1;
        }
        assert(names.skip(i as int) =~= Seq::<Seq<char>>::empty());
        Some(current)
    }

    /// `Value::as_str`.
    pub fn as_text(&self) -> (text: Option<String>)
        ensures
            text.deep_view() == json_text(Some(*self)),
    {
        match self {
            JsonValue::Str(s) => Some(s.clone()),
            _ => None,
        }
    }

    /// Whether the value is the number one.
    pub fn is_one(&self) -> (b: bool)
        ensures
            b == json_is_one(Some(*self)),
    {
        match self {
            JsonValue::Number(text) => {
                let chars = crate::text::chars_of(text.as_str());
                let one = chars.len() == 1 && chars[0] == '1';
                let one_point_zero = chars.len() == 3 && chars[0] == '1' && chars[1] == '.'
                    && chars[2] == '0';
                proof {
                    if one {
                        assert(chars@ =~= seq!['1']);
                    }
                    if one_point_zero {
                        assert(chars@ =~= seq!['1', '.', '0']);
                    }
                }
                one || one_point_zero
            },
            _ => false,
        }
    }
}

/// The text of an optional string value.
pub fn text_of(value: Option<&JsonValue>) -> (text: Option<String>)
    ensures
        text.deep_view() == json_text(opt_value(value)),
{
    match value {
        Some(v) => v.as_text(),
        None => None,
    }
}

/// Whether two string slices hold the same characters.
pub fn same_text(a: &str, b: &str) -> (same: bool)
    ensures
        same == (a@ == b@),
{
    let x = crate::text::chars_of(a);
    let y = crate::text::chars_of(b);
    if x.len() != y.len() {
        return false;
    }
    let mut i: usize = 0;
    while i < x.len()
        invariant
            x@ == a@,
            y@ == b@,
            x@.len() == y@.len(),
            i <= x@.len(),
            forall|j: int| 0 <= j < i ==> x@[j] == y@[j],
        decreases x@.len() - i,
    {
        if x[i] != y[i] {
            return false;
        }
        i = i + 1;
    }
    assert(x@ =~= y@);
    true
}

} // verus!
