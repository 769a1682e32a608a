//! JSON texts that the service answers with, written by `serde_json`.

use vstd::prelude::*;

verus! {

/// The hexadecimal digit of `n` (below 16), in lowercase.
pub open spec fn hex_digit(n: int) -> char {
    if n < 10 {
        ((('0' as int) + n) as char)
    } else {
        ((('a' as int) + n - 10) as char)
    }
}

/// How `serde_json` writes the character `c` inside a string: `"` and `\`
/// and the control characters below U+0020 are escaped (the short forms
/// `\b \f \n \r \t` where they exist, `\u00XX` otherwise); every other
/// character stands for itself.
pub open spec fn json_char(c: char) -> Seq<char> {
    if c == '"' {
        seq!['\\', '"']
    } else if c == '\\' {
        seq!['\\', '\\']
    } else if c == '\u{8}' {
        seq!['\\', 'b']
    } else if c == '\u{c}' {
        seq!['\\', 'f']
    } else if c == '\n' {
        seq!['\\', 'n']
    } else if c == '\r' {
        seq!['\\', 'r']
    } else if c == '\t' {
        seq!['\\', 't']
    } else if (c as int) < 0x20 {
        seq!['\\', 'u', '0', '0', hex_digit((c as int) / 16), hex_digit((c as int) % 16)]
    } else {
        seq![c]
    }
}

/// The characters of `s`, each written as `json_char` writes it.
pub open spec fn json_escaped(s: Seq<char>) -> Seq<char>
    decreases s.len(),
{
    if s.len() == 0 {
        Seq::<char>::empty()
    } else {
        json_escaped(s.drop_last()) + json_char(s.last())
    }
}

/// `c` stands for itself inside a JSON string.
pub open spec fn json_plain_char(c: char) -> bool {
    (c as int) >= 0x20 && c != '"' && c != '\\'
}

/// A string without quotes, backslashes and control characters is written
/// as it is.
pub proof fn lemma_json_escaped_plain(s: Seq<char>)
    requires
        forall|i: int| 0 <= i < s.len() ==> json_plain_char(#[trigger] s[i]),
    ensures
        json_escaped(s) == s,
    decreases s.len(),
{
    if s.len() > 0 {
        lemma_json_escaped_plain(s.drop_last());
        assert(json_plain_char(s[s.len() - 1]));
        assert(s.drop_last() + seq![s.last()] =~= s);
    }
}

/// The JSON string literal of `s`.
pub open spec fn json_string(s: Seq<char>) -> Seq<char> {
    seq!['"'] + json_escaped(s) + seq!['"']
}

/// The JSON string literals of `items`, separated by commas.
pub open spec fn json_string_list(items: Seq<Seq<char>>) -> Seq<char>
    decreases items.len(),
{
    if items.len() == 0 {
        Seq::<char>::empty()
    } else if items.len() == 1 {
        json_string(items[0])
    } else {
        json_string_list(items.drop_last()) + seq![','] + json_string(items.last())
    }
}

/// The compact JSON text of an object with the one field `key`, whose value
/// is the string `value`.
pub open spec fn json_object_of_string(key: Seq<char>, value: Seq<char>) -> Seq<char> {
    seq!['{'] + json_string(key) + seq![':'] + json_string(value) + seq!['}']
}

/// The compact JSON text of an object with the one field `key`, whose value
/// is the array of the strings `values`.
pub open spec fn json_object_of_strings(key: Seq<char>, values: Seq<Seq<char>>) -> Seq<char> {
    seq!['{'] + json_string(key) + seq![':', '['] + json_string_list(values) + seq![']', '}']
}

/// Calls `serde_json::Value::to_string` on the object `{key: value}` with a
/// string value. `Display` for `Value` writes the compact form: braces, the
/// key and the value as string literals (escaped by serde_json's table of
/// escapes), a colon between them, no spaces.
#[verifier::external_body]
pub(crate) fn json_object_with_string(key: &str, value: &str) -> (r: String)
    ensures
        r@ == json_object_of_string(key@, value@),
{
    let mut object = serde_json::Map::new();
    object.insert(key.to_string(), serde_json::Value::from(value));
    serde_json::Value::Object(object).to_string()
}

/// Calls `serde_json::Value::to_string` on the object `{key: values}` whose
/// value is an array of strings. `Display` for `Value` writes the compact
/// form: the array in brackets, its string literals separated by commas,
/// `[]` where it is empty.
#[verifier::external_body]
pub(crate) fn json_object_with_strings(key: &str, values: &Vec<String>) -> (r: String)
    ensures
        r@ == json_object_of_strings(key@, values.deep_view()),
{
    let mut object = serde_json::Map::new();
    object.insert(key.to_string(), serde_json::Value::from(values.clone()));
    serde_json::Value::Object(object).to_string()
}

} // verus!
