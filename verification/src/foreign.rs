//! The library's trusted boundary: each item below calls one function of
//! `std` or of an outside crate, and its contract is believed, not proved.
use vstd::prelude::*;
use crate::text::utf8_bytes;
use base64::Engine;

verus! {

// ---------------------------------------------------------------------
// std
// ---------------------------------------------------------------------

/// `String::push`: the string's characters grow by exactly that character.
#[verifier::external_body]
pub(crate) fn string_push(s: &mut String, c: char)
    ensures
        final(s)@ == old(s)@.push(c),
{
    s.push(c);
}

/// Whether every character is ASCII.
pub open spec fn is_ascii_text(s: Seq<char>) -> bool {
    forall|i: int| 0 <= i < s.len() ==> (#[trigger] s[i] as u32) < 128
}

/// ASCII lower case of one character: `A`–`Z` to `a`–`z`, others unchanged.
pub open spec fn ascii_lower_char(c: char) -> char {
    if 'A' <= c <= 'Z' {
        ((c as u32) + 32) as char
    } else {
        c
    }
}

/// ASCII lower case of a text.
pub open spec fn ascii_lower(s: Seq<char>) -> Seq<char> {
    s.map_values(|c: char| ascii_lower_char(c))
}

/// What `str::to_lowercase` returns for a text with a character beyond
/// ASCII (Unicode lower case, which may change the number of characters).
pub uninterp spec fn lowercase_of(s: Seq<char>) -> Seq<char>;

/// The lower case of a text: on ASCII text `A`–`Z` become `a`–`z`; beyond
/// ASCII, what [`lowercase_of`] names.
pub open spec fn lower_text(s: Seq<char>) -> Seq<char> {
    if is_ascii_text(s) {
        ascii_lower(s)
    } else {
        lowercase_of(s)
    }
}

/// `str::to_lowercase`: on ASCII text, `A`–`Z` become `a`–`z` and the rest
/// stays (the Unicode lower-case mapping of those characters); otherwise the
/// result is a function of `s` alone, and nothing more of it is stated.
#[verifier::external_body]
pub(crate) fn to_lowercase(s: &str) -> (r: String)
    ensures
        is_ascii_text(s@) ==> r@ == ascii_lower(s@),
        !is_ascii_text(s@) ==> r@ == lowercase_of(s@),
{
    s.to_lowercase()
}

/// Whether the bytes are the UTF-8 encoding of some text.
pub open spec fn is_utf8(bytes: Seq<u8>) -> bool {
    exists|cs: Seq<char>| #[trigger] utf8_bytes(cs) == bytes
}

/// What `String::from_utf8_lossy` returns for bytes that are no valid UTF-8.
pub uninterp spec fn utf8_lossy_of(bytes: Seq<u8>) -> Seq<char>;

/// Bytes read as UTF-8: the text they encode when they are valid UTF-8,
/// else what [`utf8_lossy_of`] names.
pub open spec fn lossy_text(bytes: Seq<u8>) -> Seq<char> {
    if is_utf8(bytes) {
        choose|cs: Seq<char>| #[trigger] utf8_bytes(cs) == bytes
    } else {
        utf8_lossy_of(bytes)
    }
}

/// `String::from_utf8_lossy(..).into_owned()`: on bytes that are the UTF-8
/// encoding of some characters, those characters (as its documentation
/// shows for valid input); on other bytes a function of the bytes alone.
/// What invalid sequences turn into is left unsaid.
#[verifier::external_body]
pub(crate) fn utf8_lossy(bytes: &[u8]) -> (r: String)
    ensures
        !is_utf8(bytes@) ==> r@ == utf8_lossy_of(bytes@),
        forall|cs: Seq<char>| #[trigger] utf8_bytes(cs) == bytes@ ==> r@ == cs,
{
    String::from_utf8_lossy(bytes).into_owned()
}

// ---------------------------------------------------------------------
// base64
// ---------------------------------------------------------------------

/// What `base64::engine::general_purpose::STANDARD.decode` returns for the
/// UTF-8 bytes of `text`: `None` where it reports a `DecodeError`.
pub uninterp spec fn base64_decoded(text: Seq<char>) -> Option<Seq<u8>>;

/// `STANDARD.decode(text)`: the decoded bytes, or `None` on a decode error;
/// a function of `text` alone.
#[verifier::external_body]
pub(crate) fn base64_decode(text: &str) -> (r: Option<Vec<u8>>)
    ensures
        match r {
            Some(v) => base64_decoded(text@) == Some(v@),
            None => base64_decoded(text@) is None,
        },
{
    match base64::engine::general_purpose::STANDARD.decode(text) {
        Ok(v) => Some(v),
        Err(_) => None,
    }
}

/// What `base64::engine::general_purpose::STANDARD.encode` returns for the
/// UTF-8 bytes of `text`.
pub uninterp spec fn base64_encoded(text: Seq<char>) -> Seq<char>;

/// A character of the standard base64 alphabet, or the padding `=`.
pub open spec fn is_base64_char(c: char) -> bool {
    ('A' <= c <= 'Z') || ('a' <= c <= 'z') || ('0' <= c <= '9') || c == '+' || c == '/' || c == '='
}

/// `STANDARD.encode(text)`. The result is written in the standard alphabet
/// with padding, is empty for empty input, and `STANDARD.decode` gives the
/// bytes of `text` back (the round trip the crate documents). It panics
/// only when the encoded length overflows `usize`, which the bound on
/// `text` rules out (at most four bytes per character).
#[verifier::external_body]
pub(crate) fn base64_encode(text: &str) -> (r: String)
    requires
        text@.len() <= usize::MAX / 8,
    ensures
        r@ == base64_encoded(text@),
        base64_decoded(r@) == Some(utf8_bytes(text@)),
        forall|i: int| 0 <= i < r@.len() ==> is_base64_char(#[trigger] r@[i]),
        text@.len() == 0 ==> r@.len() == 0,
{
    base64::engine::general_purpose::STANDARD.encode(text)
}

// ---------------------------------------------------------------------
// serde_json
// ---------------------------------------------------------------------

/// A top-level member of a JSON document, as the library reads it.
pub enum JsonField {
    /// The text is no JSON document, is no object, or has no such member.
    Missing,
    /// A JSON string.
    Text(String),
    /// A JSON number that `as_u64` accepts.
    Unsigned(u64),
    /// Any other JSON value.
    Other,
}

/// The model of a [`JsonField`].
pub ghost enum JsonScalar {
    Missing,
    Text(Seq<char>),
    Unsigned(u64),
    Other,
}

impl View for JsonField {
    type V = JsonScalar;

    open spec fn view(&self) -> JsonScalar {
        match self {
            JsonField::Missing => JsonScalar::Missing,
            JsonField::Text(s) => JsonScalar::Text(s@),
            JsonField::Unsigned(n) => JsonScalar::Unsigned(*n),
            JsonField::Other => JsonScalar::Other,
        }
    }
}

/// What `serde_json::from_str::<Value>(text)` followed by `.get(key)` yields.
pub uninterp spec fn json_member_of(text: Seq<char>, key: Seq<char>) -> JsonScalar;

/// Parses `text` with `serde_json::from_str` as a `Value` and reads its
/// member `key` with `Value::get`, telling a string, an unsigned number
/// (`as_u64`) and anything else apart. A function of `text` and `key` alone.
#[verifier::external_body]
pub(crate) fn json_member(text: &str, key: &str) -> (r: JsonField)
    ensures
        r@ == json_member_of(text@, key@),
{
    match serde_json::from_str::<serde_json::Value>(text) {
        Ok(v) => match v.get(key) {
            Some(serde_json::Value::String(s)) => JsonField::Text(s.clone()),
            Some(serde_json::Value::Number(n)) => match n.as_u64() {
                Some(u) => JsonField::Unsigned(u),
                None => JsonField::Other,
            },
            Some(_) => JsonField::Other,
            None => JsonField::Missing,
        },
        Err(_) => JsonField::Missing,
    }
}

/// What parsing `text` as a `serde_json::Value`, setting the member `key`
/// of an object to the string `value`, and `serde_json::to_string` yield:
/// `None` when `text` does not parse, `Some(None)` when serializing fails.
pub uninterp spec fn json_with_member_of(text: Seq<char>, key: Seq<char>, value: Seq<char>) -> Option<Option<Seq<char>>>;

/// `serde_json::from_str::<Value>(text)`, then on an object
/// `insert(key, Value::String(value))`, then `serde_json::to_string`.
/// A function of its three arguments alone. What its source shows of the
/// result:
/// - when `text` does not parse, [`json_member`] finds no member in it
///   either (the same `from_str` fails);
/// - serializing a `Value` does not fail (its maps have string keys, and
///   writing to a string cannot fail);
/// - reading the serialized document again gives every other member as it
///   was (strings, unsigned numbers and the other values round-trip), and
///   gives `key` as `value` when `text` was an object; when it was no
///   object, `text` has no members at all.
#[verifier::external_body]
pub(crate) fn json_with_member(text: &str, key: &str, value: &str) -> (r: Option<Option<String>>)
    ensures
        match r {
            None => json_with_member_of(text@, key@, value@) is None,
            Some(None) => json_with_member_of(text@, key@, value@) == Some(None::<Seq<char>>),
            Some(Some(s)) => json_with_member_of(text@, key@, value@) == Some(Some(s@)),
        },
        match r {
            None => forall|k: Seq<char>| #[trigger] json_member_of(text@, k) == JsonScalar::Missing,
            Some(None) => false,
            Some(Some(u)) => (forall|k: Seq<char>|
                k != key@ ==> #[trigger] json_member_of(u@, k) == json_member_of(text@, k)) && (
            json_member_of(u@, key@) == JsonScalar::Text(value@) || (forall|k: Seq<char>|
                #[trigger] json_member_of(text@, k) == JsonScalar::Missing)),
        },
{
    match serde_json::from_str::<serde_json::Value>(text) {
        Ok(mut v) => {
            if let serde_json::Value::Object(ref mut map) = v {
                map.insert(key.to_string(), serde_json::Value::String(value.to_string()));
            }
            Some(serde_json::to_string(&v).ok())
        },
        Err(_) => None,
    }
}

// ---------------------------------------------------------------------
// regex
// ---------------------------------------------------------------------

/// What `regex::Regex::new(pattern)` and `find_iter(text)` yield: `None`
/// when the pattern is refused, else the matched texts in order.
pub uninterp spec fn regex_matches_of(pattern: Seq<char>, text: Seq<char>) -> Option<Seq<Seq<char>>>;

/// `Regex::new(pattern)`, then the texts of `find_iter(text)`, in order.
/// A function of `pattern` and `text` alone.
#[verifier::external_body]
pub(crate) fn regex_find_all(pattern: &str, text: &str) -> (r: Option<Vec<String>>)
    ensures
        match r {
            Some(v) => regex_matches_of(pattern@, text@) == Some(v.deep_view()),
            None => regex_matches_of(pattern@, text@) is None,
        },
{
    match regex::Regex::new(pattern) {
        Ok(re) => Some(re.find_iter(text).map(|m| m.as_str().to_string()).collect()),
        Err(_) => None,
    }
}

} // verus!
