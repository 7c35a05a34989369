use vstd::prelude::*;

use crate::sentinel::recursion::string_views;

verus! {

/// What serde_json reads from `text` as a JSON array of strings: the
/// strings in order, or `None` when `text` is not such an array.
pub uninterp spec fn json_string_array(text: Seq<char>) -> Option<Seq<Seq<char>>>;

/// A hexadecimal digit, in lower case.
pub open spec fn hex_digit(n: int) -> char {
    seq!['0', '1', '2', '3', '4', '5', '6', '7', '8', '9', 'a', 'b', 'c', 'd', 'e', 'f'][n]
}

/// How a character stands inside a JSON string as serde_json writes it:
/// the quote and the backslash are escaped with a backslash, the control
/// characters with their short escape or as `\u00XX`, and every other
/// character stands as it is.
pub open spec fn json_escaped_char(c: char) -> Seq<char> {
    let u = c as u32;
    if c == '"' {
        seq!['\\', '"']
    } else if c == '\\' {
        seq!['\\', '\\']
    } else if u == 0x08 {
        seq!['\\', 'b']
    } else if u == 0x09 {
        seq!['\\', 't']
    } else if u == 0x0a {
        seq!['\\', 'n']
    } else if u == 0x0c {
        seq!['\\', 'f']
    } else if u == 0x0d {
        seq!['\\', 'r']
    } else if u < 0x20 {
        seq!['\\', 'u', '0', '0', hex_digit(u as int / 16), hex_digit(u as int % 16)]
    } else {
        seq![c]
    }
}

/// The characters of `s`, each as it stands inside a JSON string.
pub open spec fn json_escaped(s: Seq<char>) -> Seq<char>
    decreases s.len(),
{
    if s.len() == 0 {
        Seq::empty()
    } else {
        json_escaped_char(s[0]) + json_escaped(s.drop_first())
    }
}

/// `s` as a JSON string: quoted and escaped.
pub open spec fn json_string(s: Seq<char>) -> Seq<char> {
    seq!['"'] + json_escaped(s) + seq!['"']
}

/// The JSON strings of `items`, separated by a comma, a line break and an
/// indent of two spaces.
pub open spec fn json_pretty_items(items: Seq<Seq<char>>) -> Seq<char>
    decreases items.len(),
{
    if items.len() == 0 {
        Seq::empty()
    } else if items.len() == 1 {
        json_string(items[0])
    } else {
        json_pretty_items(items.drop_last()) + seq![',', '\n', ' ', ' '] + json_string(items.last())
    }
}

/// The text serde_json writes for an array of strings when it pretty-prints:
/// `[]` when it is empty, and otherwise one string per line, indented by
/// two spaces, between lines holding the brackets.
pub open spec fn json_pretty_string_array(items: Seq<Seq<char>>) -> Seq<char> {
    if items.len() == 0 {
        seq!['[', ']']
    } else {
        seq!['[', '\n', ' ', ' '] + json_pretty_items(items) + seq!['\n', ']']
    }
}

/// Reads a JSON array of strings.
///
/// Calls `serde_json::from_str::<Vec<String>>`; the result is a function of
/// the text alone, named `json_string_array`, with `None` for any text
/// serde_json refuses.
#[verifier::external_body]
fn parse_string_array(text: &str) -> (r: Option<Vec<String>>)
    ensures
        match r {
            Some(v) => json_string_array(text@) == Some(string_views(v@)),
            None => json_string_array(text@) is None,
        },
{
    serde_json::from_str::<Vec<String>>(text).ok()
}

/// Writes a JSON array of strings.
///
/// Calls `serde_json::to_string_pretty`, which fails only when a value's
/// `Serialize` fails or a map has keys that are not strings; neither can
/// happen with strings, so it succeeds, with the text
/// `json_pretty_string_array` gives.
#[verifier::external_body]
fn pretty_string_array(items: &Vec<String>) -> (r: Option<String>)
    ensures
        r is Some,
        r->0@ == json_pretty_string_array(string_views(items@)),
{
    serde_json::to_string_pretty(items).ok()
}

/// An application list read from a settings file's text: the strings of a
/// JSON array of strings, or no application when the text is not one.
pub fn app_list_from_json(text: &str) -> (apps: Vec<String>)
    ensures
        string_views(apps@) == match json_string_array(text@) {
            Some(v) => v,
            None => Seq::empty(),
        },
{
    match parse_string_array(text) {
        Some(v) => v,
        None => {
            let v: Vec<String> = Vec::new();
            proof {
                assert(string_views(v@) =~= Seq::<Seq<char>>::empty());
            }
            v
        },
    }
}

/// The text a settings file holds for an application list: the list as a
/// pretty-printed JSON array of strings.
pub fn app_list_to_json(apps: &Vec<String>) -> (text: String)
    ensures
        text@ == json_pretty_string_array(string_views(apps@)),
{
    match pretty_string_array(apps) {
        Some(s) => s,
        None => String::new(),
    }
}

} // verus!
