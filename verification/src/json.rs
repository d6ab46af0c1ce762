//! JSON documents, as `serde_json` reads and writes them.
//!
//! A `serde_json::Value` is opaque here. What is known of one is its compact JSON text, which
//! tells any two different values apart.

use crate::text::{decimal, hex_digit};
use vstd::prelude::*;

verus! {

/// `serde_json::Value`, a JSON document.
#[verifier::external_type_specification]
#[verifier::external_body]
pub struct ExValue(serde_json::Value);

/// The compact JSON text of a document, as `Value`'s `Display` writes it.
pub uninterp spec fn value_text(value: serde_json::Value) -> Seq<char>;

/// What `serde_json::from_slice` reads: the compact text of the document that the bytes spell,
/// or the words of its error where they spell none.
pub uninterp spec fn json_text(bytes: Seq<u8>) -> Result<Seq<char>, Seq<char>>;

/// What indexing a document by a key gives: the compact text of that member, with both documents
/// taken by their compact texts.
pub uninterp spec fn json_member(text: Seq<char>, key: Seq<char>) -> Seq<char>;

/// How a character stands inside a JSON string.
pub open spec fn json_escape(c: char) -> Seq<char> {
    if c == '"' {
        seq!['\\', '"']
    } else if c == '\\' {
        seq!['\\', '\\']
    } else if c as u32 == 0x08 {
        seq!['\\', 'b']
    } else if c as u32 == 0x09 {
        seq!['\\', 't']
    } else if c as u32 == 0x0a {
        seq!['\\', 'n']
    } else if c as u32 == 0x0c {
        seq!['\\', 'f']
    } else if c as u32 == 0x0d {
        seq!['\\', 'r']
    } else if (c as u32) < 0x20 {
        seq!['\\', 'u', '0', '0', hex_digit(c as nat / 16), hex_digit(c as nat % 16)]
    } else {
        seq![c]
    }
}

/// How a text stands inside a JSON string.
pub open spec fn json_escaped(s: Seq<char>) -> Seq<char>
    decreases s.len(),
{
    if s.len() == 0 {
        seq![]
    } else {
        json_escaped(s.drop_last()) + json_escape(s.last())
    }
}

/// A text as a JSON string, quotes and all.
pub open spec fn json_quote(s: Seq<char>) -> Seq<char> {
    seq!['"'] + json_escaped(s) + seq!['"']
}

/// The compact text of an object with one member.
pub open spec fn json_object(key: Seq<char>, member: Seq<char>) -> Seq<char> {
    seq!['{'] + json_quote(key) + seq![':'] + member + seq!['}']
}

/// A text without quotes, backslashes and control characters is quoted as it stands.
pub proof fn law_plain_text_is_quoted_as_it_stands(s: Seq<char>)
    requires
        forall|i: int|
            0 <= i < s.len() ==> #[trigger] s[i] != '"' && s[i] != '\\' && s[i] as u32 >= 0x20,
    ensures
        json_escaped(s) == s,
        json_quote(s) == seq!['"'] + s + seq!['"'],
    decreases s.len(),
{
    if s.len() > 0 {
        law_plain_text_is_quoted_as_it_stands(s.drop_last());
        assert(s.last() == s[s.len() - 1]);
        assert(json_escaped(s) =~= s);
    } else {
        assert(json_escaped(s) =~= s);
    }
}

proof fn lemma_escaped_from_the_front(s: Seq<char>)
    requires
        s.len() > 0,
    ensures
        json_escaped(s) == json_escape(s[0]) + json_escaped(s.skip(1)),
    decreases s.len(),
{
    let rest = s.skip(1);
    if s.len() == 1 {
        assert(s.drop_last() =~= Seq::<char>::empty());
        assert(rest =~= Seq::<char>::empty());
        assert(json_escaped(s) =~= json_escape(s[0]) + json_escaped(rest));
    } else {
        lemma_escaped_from_the_front(s.drop_last());
        assert(s.drop_last().skip(1) =~= rest.drop_last());
        assert(rest.last() == s.last());
        assert(json_escaped(s) =~= json_escape(s[0]) + json_escaped(rest));
    }
}

proof fn lemma_escapes_tell_apart(c: char, d: char, x: Seq<char>, y: Seq<char>)
    requires
        json_escape(c) + x == json_escape(d) + y,
    ensures
        c == d,
{
    let a = json_escape(c) + x;
    let b = json_escape(d) + y;
    assert(a[0] == json_escape(c)[0]);
    assert(b[0] == json_escape(d)[0]);
    if json_escape(c).len() >= 2 && json_escape(d).len() >= 2 {
        assert(a[1] == json_escape(c)[1]);
        assert(b[1] == json_escape(d)[1]);
        if json_escape(c).len() == 6 && json_escape(d).len() == 6 {
            assert(a[4] == json_escape(c)[4] && a[5] == json_escape(c)[5]);
            assert(b[4] == json_escape(d)[4] && b[5] == json_escape(d)[5]);
            assert(c as nat / 16 < 2 && d as nat / 16 < 2);
            assert(hex_digit(c as nat / 16) == hex_digit(d as nat / 16));
            assert(hex_digit(c as nat % 16) == hex_digit(d as nat % 16));
        }
    }
}

proof fn lemma_escaping_loses_nothing(s: Seq<char>, t: Seq<char>)
    requires
        json_escaped(s) == json_escaped(t),
    ensures
        s == t,
    decreases s.len(),
{
    if s.len() == 0 {
        if t.len() > 0 {
            lemma_escaped_from_the_front(t);
            assert(json_escaped(t).len() > 0);
        }
        assert(s =~= t);
    } else {
        lemma_escaped_from_the_front(s);
        if t.len() == 0 {
            assert(json_escaped(s).len() > 0);
        } else {
            lemma_escaped_from_the_front(t);
            lemma_escapes_tell_apart(s[0], t[0], json_escaped(s.skip(1)), json_escaped(t.skip(1)));
            let n = json_escape(s[0]).len() as int;
            assert(json_escaped(s).skip(n) =~= json_escaped(s.skip(1)));
            assert(json_escaped(t).skip(n) =~= json_escaped(t.skip(1)));
            lemma_escaping_loses_nothing(s.skip(1), t.skip(1));
            assert(s =~= seq![s[0]] + s.skip(1));
            assert(t =~= seq![t[0]] + t.skip(1));
        }
    }
}

/// A JSON string stands for one text only.
pub proof fn law_quoting_loses_nothing(s: Seq<char>, t: Seq<char>)
    requires
        json_quote(s) == json_quote(t),
    ensures
        s == t,
{
    let a = json_quote(s);
    let b = json_quote(t);
    assert(a.subrange(1, a.len() - 1) =~= json_escaped(s));
    assert(b.subrange(1, b.len() - 1) =~= json_escaped(t));
    lemma_escaping_loses_nothing(s, t);
}

/// `serde_json::from_slice::<Value>`: reads the one JSON document that the bytes spell. It fails
/// where they spell none, and the error is then taken by its words; whether it does, the document
/// and the words depend on the bytes alone.
#[verifier::external_body]
pub(crate) fn parse_value(bytes: &[u8]) -> (r: Result<serde_json::Value, String>)
    ensures
        match r {
            Ok(value) => json_text(bytes@) == Ok::<Seq<char>, Seq<char>>(value_text(value)),
            Err(words) => json_text(bytes@) == Err::<Seq<char>, Seq<char>>(words@),
        },
{
    serde_json::from_slice(bytes).map_err(|error| error.to_string())
}

/// `Value`'s `Index<&str>`: the member under `key`. It never fails: what is no object has no
/// members, and a member that is not there reads as `null`.
#[verifier::external_body]
pub(crate) fn member<'a>(value: &'a serde_json::Value, key: &str) -> (r: &'a serde_json::Value)
    ensures
        value_text(*r) == json_member(value_text(*value), key@),
        value_text(*value).len() > 0 && value_text(*value)[0] != '{' ==> value_text(*r)
            == "null"@,
{
    &value[key]
}

/// `Value::as_str`: the text of a document that is a JSON string, and nothing for any other.
#[verifier::external_body]
pub(crate) fn as_text<'a>(value: &'a serde_json::Value) -> (r: Option<&'a str>)
    ensures
        match r {
            Some(s) => value_text(*value) == json_quote(s@),
            None => forall|s: Seq<char>| value_text(*value) != #[trigger] json_quote(s),
        },
{
    value.as_str()
}

/// `Value::as_u64`: the number of a document that is a whole number from zero to `u64::MAX`
/// written without fraction or exponent, and nothing for any other.
#[verifier::external_body]
pub(crate) fn as_number(value: &serde_json::Value) -> (r: Option<u64>)
    ensures
        match r {
            Some(n) => value_text(*value) == decimal(n as nat),
            None => forall|n: u64| value_text(*value) != #[trigger] decimal(n as nat),
        },
{
    value.as_u64()
}

/// `Value`'s `to_string`: the compact JSON text.
#[verifier::external_body]
pub(crate) fn write_value(value: &serde_json::Value) -> (r: String)
    ensures
        r@ == value_text(*value),
{
    value.to_string()
}

/// `Value::default`: the document `null`.
#[verifier::external_body]
pub(crate) fn null_value() -> (r: serde_json::Value)
    ensures
        value_text(r) == "null"@,
{
    serde_json::Value::default()
}

/// `Value`'s `From<&str>`: the JSON string that holds `s`.
#[verifier::external_body]
pub(crate) fn string_value(s: &str) -> (r: serde_json::Value)
    ensures
        value_text(r) == json_quote(s@),
{
    serde_json::Value::from(s)
}

/// `Value`'s `From<u64>`: the JSON number `n`.
#[verifier::external_body]
pub(crate) fn number_value(n: u64) -> (r: serde_json::Value)
    ensures
        value_text(r) == decimal(n as nat),
{
    serde_json::Value::from(n)
}

/// `Value`'s `FromIterator` over key and value pairs, with one pair: the object with that member.
#[verifier::external_body]
pub(crate) fn object_value(key: &str, value: serde_json::Value) -> (r: serde_json::Value)
    ensures
        value_text(r) == json_object(key@, value_text(value)),
{
    serde_json::Value::from_iter([(key, value)])
}

} // verus!
