//! JSON text of the values read from OPC-UA nodes.
use vstd::prelude::*;
use vstd::string::*;
use crate::text::{decimal, decimal_read_back, decimal_value, signed_decimal, unsigned_decimal};

verus! {

/// The JSON text of `null`, which stands for a node without a value.
pub open spec fn null_text() -> Seq<char> {
    seq!['n', 'u', 'l', 'l']
}

/// The lower-case hexadecimal digit for `d < 16`.
pub open spec fn hex_digit(d: nat) -> char {
    if d < 10 {
        (48 + d) as char
    } else {
        (87 + d) as char
    }
}

/// How a JSON string writes one character: `"` and `\` behind a
/// backslash, backspace, tab, line feed, form feed and carriage return as
/// `\b \t \n \f \r`, any other character below 0x20 as `\u00` and two
/// lower-case hex digits, and every other character as itself.
pub open spec fn escape_char(c: char) -> Seq<char> {
    let v = c as nat;
    if c == '"' {
        seq!['\\', '"']
    } else if c == '\\' {
        seq!['\\', '\\']
    } else if v == 8 {
        seq!['\\', 'b']
    } else if v == 9 {
        seq!['\\', 't']
    } else if v == 10 {
        seq!['\\', 'n']
    } else if v == 12 {
        seq!['\\', 'f']
    } else if v == 13 {
        seq!['\\', 'r']
    } else if v < 32 {
        seq!['\\', 'u', '0', '0', hex_digit(v / 16), hex_digit(v % 16)]
    } else {
        seq![c]
    }
}

/// The characters of `s`, each escaped for a JSON string.
pub open spec fn escaped(s: Seq<char>) -> Seq<char>
    decreases s.len(),
{
    if s.len() == 0 {
        Seq::empty()
    } else {
        escaped(s.drop_last()) + escape_char(s.last())
    }
}

/// The JSON text of a string value: a quote, the escaped characters and a
/// closing quote.
pub open spec fn json_string_text(s: Seq<char>) -> Seq<char> {
    seq!['"'] + escaped(s) + seq!['"']
}

/// A string with no quote, no backslash and no control character below
/// 0x20 is written as itself between quotes.
pub proof fn plain_string_text(s: Seq<char>)
    requires
        forall|i: int| 0 <= i < s.len() ==> #[trigger] s[i] != '"' && s[i] != '\\' && (s[i] as nat) >= 32,
    ensures
        json_string_text(s) == seq!['"'] + s + seq!['"'],
{
    plain_escaped(s);
}

proof fn plain_escaped(s: Seq<char>)
    requires
        forall|i: int| 0 <= i < s.len() ==> #[trigger] s[i] != '"' && s[i] != '\\' && (s[i] as nat) >= 32,
    ensures
        escaped(s) == s,
    decreases s.len(),
{
    if s.len() > 0 {
        let t = s.drop_last();
        assert forall|i: int| 0 <= i < t.len() implies #[trigger] t[i] != '"' && t[i] != '\\' && (t[i] as nat) >= 32 by {
            assert(t[i] == s[i]);
        }
        plain_escaped(t);
        let c = s[s.len() - 1];
        assert(escape_char(c) == seq![c]);
        assert(s =~= t.push(c));
    }
}

/// Calls `serde_json::Value::to_string` on `serde_json::Value::String`.
/// Trusted to write the string as `json_string_text` says, which is what
/// `serde_json`'s string serializer does with its escape table.
#[verifier::external_body]
fn quote_json(s: &str) -> (r: String)
    ensures
        r@ == json_string_text(s@),
{
    serde_json::Value::String(s.to_string()).to_string()
}

/// A value held by an OPC-UA node, as far as its JSON text is computed
/// here: every kind that is neither a float nor a double.  `Other` holds
/// the debug text of any other kind of value.
pub enum Variant {
    Boolean(bool),
    SByte(i8),
    Byte(u8),
    Int16(i16),
    UInt16(u16),
    Int32(i32),
    UInt32(u32),
    Int64(i64),
    UInt64(u64),
    String(String),
    Other(String),
}

/// The JSON text of a variant: booleans as `true`/`false`, integers in
/// decimal, strings and every other kind as a quoted JSON string.
pub open spec fn variant_text(v: Variant) -> Seq<char> {
    match v {
        Variant::Boolean(b) => if b {
            seq!['t', 'r', 'u', 'e']
        } else {
            seq!['f', 'a', 'l', 's', 'e']
        },
        Variant::SByte(n) => decimal(n as int),
        Variant::Byte(n) => decimal(n as int),
        Variant::Int16(n) => decimal(n as int),
        Variant::UInt16(n) => decimal(n as int),
        Variant::Int32(n) => decimal(n as int),
        Variant::UInt32(n) => decimal(n as int),
        Variant::Int64(n) => decimal(n as int),
        Variant::UInt64(n) => decimal(n as int),
        Variant::String(s) => json_string_text(s@),
        Variant::Other(s) => json_string_text(s@),
    }
}

/// An integer value is written as the decimal text of that very value:
/// reading the text back gives the integer the node holds, for every
/// integer kind and every value of it.
pub proof fn integer_text_reads_back(v: Variant)
    ensures
        v matches Variant::SByte(n) ==> decimal_value(variant_text(v)) == n as int,
        v matches Variant::Byte(n) ==> decimal_value(variant_text(v)) == n as int,
        v matches Variant::Int16(n) ==> decimal_value(variant_text(v)) == n as int,
        v matches Variant::UInt16(n) ==> decimal_value(variant_text(v)) == n as int,
        v matches Variant::Int32(n) ==> decimal_value(variant_text(v)) == n as int,
        v matches Variant::UInt32(n) ==> decimal_value(variant_text(v)) == n as int,
        v matches Variant::Int64(n) ==> decimal_value(variant_text(v)) == n as int,
        v matches Variant::UInt64(n) ==> decimal_value(variant_text(v)) == n as int,
{
    match v {
        Variant::SByte(n) => decimal_read_back(n as int),
        Variant::Byte(n) => decimal_read_back(n as int),
        Variant::Int16(n) => decimal_read_back(n as int),
        Variant::UInt16(n) => decimal_read_back(n as int),
        Variant::Int32(n) => decimal_read_back(n as int),
        Variant::UInt32(n) => decimal_read_back(n as int),
        Variant::Int64(n) => decimal_read_back(n as int),
        Variant::UInt64(n) => decimal_read_back(n as int),
        _ => {},
    }
}

/// The JSON text of a node value.
pub fn variant_to_json(v: &Variant) -> (r: String)
    ensures
        r@ == variant_text(*v),
        *v matches Variant::SByte(n) ==> decimal_value(r@) == n as int,
        *v matches Variant::Byte(n) ==> decimal_value(r@) == n as int,
        *v matches Variant::Int16(n) ==> decimal_value(r@) == n as int,
        *v matches Variant::UInt16(n) ==> decimal_value(r@) == n as int,
        *v matches Variant::Int32(n) ==> decimal_value(r@) == n as int,
        *v matches Variant::UInt32(n) ==> decimal_value(r@) == n as int,
        *v matches Variant::Int64(n) ==> decimal_value(r@) == n as int,
        *v matches Variant::UInt64(n) ==> decimal_value(r@) == n as int,
{
    proof {
        integer_text_reads_back(*v);
    }
    match v {
        Variant::Boolean(b) => {
            let r = if *b {
                String::from_str("true")
            } else {
                String::from_str("false")
            };
            proof {
                reveal_strlit("true");
                reveal_strlit("false");
            }
            r
        },
        Variant::SByte(n) => signed_decimal(*n as i64),
        Variant::Byte(n) => unsigned_decimal(*n as u64),
        Variant::Int16(n) => signed_decimal(*n as i64),
        Variant::UInt16(n) => unsigned_decimal(*n as u64),
        Variant::Int32(n) => signed_decimal(*n as i64),
        Variant::UInt32(n) => unsigned_decimal(*n as u64),
        Variant::Int64(n) => signed_decimal(*n),
        Variant::UInt64(n) => unsigned_decimal(*n),
        Variant::String(s) => quote_json(s.as_str()),
        Variant::Other(s) => quote_json(s.as_str()),
    }
}

/// The JSON text of `null`.
pub fn json_null() -> (r: String)
    ensures
        r@ == null_text(),
{
    let r = String::from_str("null");
    proof {
        reveal_strlit("null");
    }
    r
}

} // verus!
