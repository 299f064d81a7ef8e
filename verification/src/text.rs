//! Conversions between strings and character vectors, and character
//! construction from code points. The codec scans and builds frames as
//! `Vec<char>`, whose view is the same `Seq<char>` as the string it came from.
use vstd::prelude::*;

verus! {

/// Relies on `str::chars`: iterating a string slice yields exactly the
/// characters of its view, in order.
#[verifier::external_body]
pub(crate) fn str_to_chars(s: &str) -> (r: Vec<char>)
    ensures
        r@ == s@,
{
    s.chars().collect()
}

/// Relies on `String: FromIterator<char>`: collecting characters builds the
/// string holding exactly those characters, in order.
#[verifier::external_body]
pub(crate) fn chars_to_string(v: &Vec<char>) -> (r: String)
    ensures
        r@ == v@,
{
    v.iter().collect()
}

/// True of the Unicode scalar values: the code points that are characters.
pub open spec fn is_scalar_value(v: int) -> bool {
    (0 <= v < 0xD800) || (0xE000 <= v <= 0x10FFFF)
}

/// The Unicode scalar value of a character.
pub open spec fn cp_of(c: char) -> int {
    c as int
}

/// The character with Unicode scalar value `v`, where one exists.
pub open spec fn char_of_cp(v: int) -> char {
    choose|c: char| cp_of(c) == v
}

/// Relies on `char::from_u32`: `Some` exactly for Unicode scalar values, and
/// the returned character carries the given code point.
#[verifier::external_body]
pub(crate) fn char_from_u32(v: u32) -> (r: Option<char>)
    ensures
        r is Some <==> is_scalar_value(v as int),
        r matches Some(c) ==> c == char_of_cp(v as int),
{
    char::from_u32(v)
}

} // verus!
