//! JSON as the registry speaks it. Parsing and string escaping are
//! `serde_json`'s work; this module declares its value type, names what its
//! functions return, and adds the verified lookups the decoders are built
//! from.

use crate::text::same_text;
use vstd::prelude::*;
use vstd::string::*;

verus! {

#[verifier::external_type_specification]
#[verifier::external_body]
pub struct ExJsonValue(serde_json::Value);

#[verifier::external_type_specification]
#[verifier::external_body]
pub struct ExJsonError(serde_json::Error);

/// The value that a JSON text denotes, or `None` where `serde_json` rejects
/// the text.
pub uninterp spec fn json_document(text: Seq<u8>) -> Option<serde_json::Value>;

/// The characters of a JSON string; `None` for every other kind of value.
pub uninterp spec fn json_string_value(value: serde_json::Value) -> Option<Seq<char>>;

/// The members of a JSON object as key and value, in the order in which the
/// object hands them out; `None` for every other kind of value.
pub uninterp spec fn json_object_members(value: serde_json::Value) -> Option<
    Seq<(Seq<char>, serde_json::Value)>,
>;

/// Whether the value is JSON's `null`.
pub uninterp spec fn json_is_null(value: serde_json::Value) -> bool;

/// One character as it stands inside a JSON string: the quote, the
/// backslash and the control characters below U+0020 are escaped, the five
/// common ones by their letter, the others as `\u00` and two lower-case
/// hexadecimal digits; every other character stands for itself.
pub open spec fn json_escaped_char(c: char) -> Seq<char> {
    if c == '"' {
        seq!['\\', '"']
    } else if c == '\\' {
        seq!['\\', '\\']
    } else if c == '\u{8}' {
        seq!['\\', 'b']
    } else if c == '\t' {
        seq!['\\', 't']
    } else if c == '\n' {
        seq!['\\', 'n']
    } else if c == '\u{c}' {
        seq!['\\', 'f']
    } else if c == '\r' {
        seq!['\\', 'r']
    } else if (c as u32) < 0x20 {
        seq![
            '\\',
            'u',
            '0',
            '0',
            "0123456789abcdef"@[c as u32 as int / 16],
            "0123456789abcdef"@[c as u32 as int % 16],
        ]
    } else {
        seq![c]
    }
}

/// The characters of a string, each as it stands inside a JSON string.
pub open spec fn json_escaped(s: Seq<char>) -> Seq<char>
    decreases s.len(),
{
    if s.len() == 0 {
        Seq::empty()
    } else {
        json_escaped(s.drop_last()) + json_escaped_char(s.last())
    }
}

/// The compact JSON text of a string: its escaped characters between two
/// quotes.
pub open spec fn json_string_text(s: Seq<char>) -> Seq<char> {
    seq!['"'] + json_escaped(s) + seq!['"']
}

/// Members as handed out by [`object_members`], read as pairs of key
/// characters and value.
pub open spec fn members_view(members: Seq<(String, serde_json::Value)>) -> Seq<
    (Seq<char>, serde_json::Value),
> {
    Seq::new(members.len(), |i: int| (members[i].0@, members[i].1))
}

/// Calls `serde_json::from_slice` at type `serde_json::Value`. Trusted: it
/// succeeds exactly on the texts for which [`json_document`] names a value,
/// and returns that value.
#[verifier::external_body]
pub(crate) fn parse_document(text: &[u8]) -> (parsed: Result<serde_json::Value, serde_json::Error>)
    ensures
        match parsed {
            Ok(value) => json_document(text@) == Some(value),
            Err(_) => json_document(text@) is None,
        },
{
    serde_json::from_slice::<serde_json::Value>(text)
}

/// Calls `serde_json::Value::is_null`. Trusted: the result is the truth
/// value named by [`json_is_null`].
#[verifier::external_body]
pub(crate) fn is_null(value: &serde_json::Value) -> (null: bool)
    ensures
        null == json_is_null(*value),
{
    value.is_null()
}

/// Calls `serde_json::Value::as_str`. Trusted: the result is the content
/// named by [`json_string_value`].
#[verifier::external_body]
pub(crate) fn string_value(value: &serde_json::Value) -> (content: Option<String>)
    ensures
        match content {
            Some(s) => json_string_value(*value) == Some(s@),
            None => json_string_value(*value) is None,
        },
{
    value.as_str().map(|s| s.to_owned())
}

/// Calls `serde_json::Value::as_object` and walks the map with
/// `serde_json::Map::iter`, copying each entry out. Trusted: the result is
/// the member list named by [`json_object_members`].
#[verifier::external_body]
pub(crate) fn object_members(value: &serde_json::Value) -> (members: Option<
    Vec<(String, serde_json::Value)>,
>)
    ensures
        match members {
            Some(list) => json_object_members(*value) == Some(members_view(list@)),
            None => json_object_members(*value) is None,
        },
{
    value.as_object().map(|map| map.iter().map(|(k, v)| (k.clone(), v.clone())).collect())
}

/// Formats `serde_json::Value::String` with its `Display` impl. Trusted: the
/// result is the string between quotes, with the quote, the backslash and
/// the control characters below U+0020 escaped as [`json_escaped_char`]
/// says, and nothing else changed.
#[verifier::external_body]
pub(crate) fn quote(s: &str) -> (text: String)
    ensures
        text@ == json_string_text(s@),
{
    serde_json::Value::String(s.to_owned()).to_string()
}

/// The value of the first member named `key`, if there is one.
pub open spec fn member_value(members: Seq<(Seq<char>, serde_json::Value)>, key: Seq<char>) -> Option<
    serde_json::Value,
>
    decreases members.len(),
{
    if members.len() == 0 {
        None
    } else if members[0].0 == key {
        Some(members[0].1)
    } else {
        member_value(members.drop_first(), key)
    }
}

/// Looks up the first member named `key`.
pub(crate) fn find_member<'a>(members: &'a Vec<(String, serde_json::Value)>, key: &str) -> (found: Option<
    &'a serde_json::Value,
>)
    ensures
        match found {
            Some(value) => member_value(members_view(members@), key@) == Some(*value),
            None => member_value(members_view(members@), key@) is None,
        },
{
    let ghost all = members_view(members@);
    let mut i: usize = 0;
    assert(all.skip(0) =~= all);
    while i < members.len()
        invariant
            i <= members@.len(),
            all == members_view(members@),
            member_value(all, key@) == member_value(all.skip(i as int), key@),
        decreases members@.len() - i,
    {
        if same_text(members[i].0.as_str(), key) {
            return Some(&members[i].1);
        }
        assert(all.skip(i as int).drop_first() =~= all.skip(i + 1));
        i += 1;
    }
    None
}

/// The content of the first member named `key`, if that member is a
/// string.
pub open spec fn string_member(members: Seq<(Seq<char>, serde_json::Value)>, key: Seq<char>) -> Option<
    Seq<char>,
> {
    match member_value(members, key) {
        None => None,
        Some(value) => json_string_value(value),
    }
}

/// Looks up the first member named `key` and reads it as a string.
pub(crate) fn find_string(members: &Vec<(String, serde_json::Value)>, key: &str) -> (found: Option<String>)
    ensures
        match found {
            Some(content) => string_member(members_view(members@), key@) == Some(content@),
            None => string_member(members_view(members@), key@) is None,
        },
{
    match find_member(members, key) {
        None => None,
        Some(value) => string_value(value),
    }
}

} // verus!
