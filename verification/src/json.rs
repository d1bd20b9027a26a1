use vstd::prelude::*;
use vstd::string::*;
use crate::text::str_eq;

verus! {

/// A JSON value as the library reads it. A number keeps its value where it
/// is an integer that fits in an `i64`, and `None` otherwise.
#[derive(Debug)]
pub enum Json {
    Null,
    Bool(bool),
    Number(Option<i64>),
    Str(String),
    Array(Vec<Json>),
    Object(Vec<(String, Json)>),
}

/// The value of the first member named `key`.
pub open spec fn lookup(members: Seq<(String, Json)>, key: Seq<char>) -> Option<Json>
    decreases members.len(),
{
    if members.len() == 0 {
        None
    } else if members[0].0@ == key {
        Some(members[0].1)
    } else {
        lookup(members.drop_first(), key)
    }
}

impl Json {
    /// The member `key` of an object; `None` for a missing member or a value
    /// that is no object.
    pub open spec fn field(self, key: Seq<char>) -> Option<Json> {
        match self {
            Json::Object(members) => lookup(members@, key),
            _ => None,
        }
    }

    pub open spec fn str_of(self) -> Option<Seq<char>> {
        match self {
            Json::Str(s) => Some(s@),
            _ => None,
        }
    }

    pub open spec fn array_of(self) -> Option<Seq<Json>> {
        match self {
            Json::Array(items) => Some(items@),
            _ => None,
        }
    }

    pub open spec fn object_of(self) -> Option<Seq<(String, Json)>> {
        match self {
            Json::Object(members) => Some(members@),
            _ => None,
        }
    }

    pub open spec fn i64_of(self) -> Option<i64> {
        match self {
            Json::Number(n) => n,
            _ => None,
        }
    }

    /// The member `key` of an object.
    pub fn get(&self, key: &str) -> (r: Option<&Json>)
        ensures
            r is Some <==> self.field(key@) is Some,
            r matches Some(v) ==> self.field(key@) == Some(*v),
    {
        match self {
            Json::Object(members) => {
                let mut i: usize = 0;
                assert(members@.skip(0) =~= members@);
                while i < members.len()
                    invariant
                        i <= members@.len(),
                        self.field(key@) == lookup(members@, key@),
                        lookup(members@, key@) == lookup(members@.skip(i as int), key@),
                    decreases members@.len() - i,
                {
                    let ghost rest = members@.skip(i as int);
                    proof {
                        assert(rest[0] == members@[i as int]);
                        assert(rest.drop_first() =~= members@.skip(i + 1));
                    }
                    if str_eq(members[i].0.as_str(), key) {
                        return Some(&members[i].1);
                    }
                    i = i + 1;
                }
                None
            },
            _ => None,
        }
    }

    pub fn as_str(&self) -> (r: Option<&String>)
        ensures
            r is Some <==> self.str_of() is Some,
            r matches Some(s) ==> self.str_of() == Some(s@),
    {
        match self {
            Json::Str(s) => Some(s),
            _ => None,
        }
    }

    pub fn as_array(&self) -> (r: Option<&Vec<Json>>)
        ensures
            r is Some <==> self.array_of() is Some,
            r matches Some(a) ==> self.array_of() == Some(a@),
    {
        match self {
            Json::Array(a) => Some(a),
            _ => None,
        }
    }

    pub fn as_object(&self) -> (r: Option<&Vec<(String, Json)>>)
        ensures
            r is Some <==> self.object_of() is Some,
            r matches Some(m) ==> self.object_of() == Some(m@),
    {
        match self {
            Json::Object(m) => Some(m),
            _ => None,
        }
    }

    pub fn as_i64(&self) -> (r: Option<i64>)
        ensures
            r == self.i64_of(),
    {
        match self {
            Json::Number(n) => *n,
            _ => None,
        }
    }
}


/// A lower-case hex digit.
pub open spec fn lower_hex(d: int) -> char {
    if d < 10 {
        (d + 48) as char
    } else {
        (d + 87) as char
    }
}

/// How serde_json writes a character inside a JSON string: `"` and `\`
/// escaped by a backslash, the control characters with a short escape where
/// JSON has one and as `\u00xx` otherwise, every other character as it is.
pub open spec fn escape_char(c: char) -> Seq<char> {
    if c == '"' {
        seq!['\\', '"']
    } else if c == '\\' {
        seq!['\\', '\\']
    } else if c == '\u{8}' {
        seq!['\\', 'b']
    } else if c == '\t' {
        seq!['\\', 't']
    } else if c == '\n' {
        seq!['\\', 'n']
    } else if c == '\u{c}' {
        seq!['\\', 'f']
    } else if c == '\r' {
        seq!['\\', 'r']
    } else if (c as u32) < 32 {
        seq!['\\', 'u', '0', '0', lower_hex((c as u32) as int / 16), lower_hex((c as u32) as int % 16)]
    } else {
        seq![c]
    }
}

pub open spec fn escaped(s: Seq<char>) -> Seq<char>
    decreases s.len(),
{
    if s.len() == 0 {
        Seq::empty()
    } else {
        escaped(s.drop_last()) + escape_char(s.last())
    }
}

/// `s` written as a JSON string.
pub open spec fn json_string(s: Seq<char>) -> Seq<char> {
    seq!['"'] + escaped(s) + seq!['"']
}

/// serde_json: `serde_json::to_string` of a `str`. Claimed, as serde_json's
/// `format_escaped_str` and its `ESCAPE` table write it: the text between
/// double quotes, each character as `escape_char` gives it. Writing into a
/// `String` cannot fail for a `str`.
#[verifier::external_body]
pub fn to_json_string(s: &str) -> (r: String)
    ensures
        r@ == json_string(s@),
{
    serde_json::to_string(s).unwrap()
}

/// The JSON value that serde_json reads from a text, with each number kept as
/// `Value::as_i64` gives it; none where the text is no JSON.
pub uninterp spec fn json_text(text: Seq<char>) -> Option<Json>;

#[verifier::external_type_specification]
#[verifier::external_body]
pub struct ExJsonValue(serde_json::Value);

/// The `Json` that a serde_json `Value` holds, variant for variant; the
/// conversion step of `parse_json`, which states what comes out.
#[verifier::external_body]
fn json_of_value(v: serde_json::Value) -> Json {
    match v {
        serde_json::Value::Null => Json::Null,
        serde_json::Value::Bool(b) => Json::Bool(b),
        serde_json::Value::Number(n) => Json::Number(n.as_i64()),
        serde_json::Value::String(s) => Json::Str(s),
        serde_json::Value::Array(a) => Json::Array(a.into_iter().map(json_of_value).collect()),
        serde_json::Value::Object(m) => Json::Object(m.into_iter().map(|(k, x)| (k, json_of_value(x))).collect()),
    }
}

/// serde_json: `serde_json::from_str::<Value>`, the value converted to a
/// `Json`. Claimed: the result is `json_text` of the text.
#[verifier::external_body]
pub(crate) fn parse_json(text: &str) -> (r: Option<Json>)
    ensures
        r == json_text(text@),
{
    match serde_json::from_str::<serde_json::Value>(text) {
        Ok(v) => Some(json_of_value(v)),
        Err(_) => None,
    }
}

/// The JSON object that a text holds; none where the text is no JSON or holds
/// another value.
pub open spec fn json_object_text(text: Seq<char>) -> Option<Json> {
    match json_text(text) {
        Some(j) => if j is Object { Some(j) } else { None },
        None => None,
    }
}

/// Reads a JSON text that holds an object.
pub fn parse_json_object(text: &str) -> (r: Option<Json>)
    ensures
        r == json_object_text(text@),
{
    match parse_json(text) {
        Some(Json::Object(m)) => Some(Json::Object(m)),
        _ => None,
    }
}

/// Reads a JSON text that holds a string.
pub fn parse_json_string(text: &str) -> (r: Option<String>)
    ensures
        r is Some <==> json_text(text@) matches Some(Json::Str(_)),
        r matches Some(s) ==> json_text(text@) == Some(Json::Str(s)),
{
    match parse_json(text) {
        Some(Json::Str(s)) => Some(s),
        _ => None,
    }
}

} // verus!
