//! Text forms of the 128-bit identifiers: the hyphenated lower-case form the
//! store writes, and the grammar the parser accepts (simple, hyphenated,
//! braced, and URN forms, case-insensitively).

use vstd::prelude::*;

use crate::hex::{all_hex, hex_digits, hex_value, is_lower_hex_digit, lemma_hex_digits_value,
    pow16};

verus! {

/// The 32 hexadecimal digits of `u`, most significant first.
pub open spec fn simple_of(u: u128) -> Seq<char> {
    hex_digits(u as int, 32)
}

/// The hyphenated lower-case form: digit groups of 8, 4, 4, 4 and 12.
pub open spec fn uuid_str_of(u: u128) -> Seq<char> {
    let d = simple_of(u);
    d.subrange(0, 8) + seq!['-'] + d.subrange(8, 12) + seq!['-'] + d.subrange(12, 16)
        + seq!['-'] + d.subrange(16, 20) + seq!['-'] + d.subrange(20, 32)
}

/// The value of a 36-character hyphenated form: four hyphens at fixed
/// positions, hexadecimal digits of either case elsewhere.
pub open spec fn hyphenated_value(s: Seq<char>) -> Option<u128> {
    if s.len() == 36 && s[8] == '-' && s[13] == '-' && s[18] == '-' && s[23] == '-' {
        let d = s.subrange(0, 8) + s.subrange(9, 13) + s.subrange(14, 18) + s.subrange(19, 23)
            + s.subrange(24, 36);
        if all_hex(d) {
            Some(hex_value(d) as u128)
        } else {
            None
        }
    } else {
        None
    }
}

/// `urn:uuid:` compared without regard to letter case.
pub open spec fn is_urn_prefix(s: Seq<char>) -> bool {
    &&& s.len() == 9
    &&& (s[0] == 'u' || s[0] == 'U')
    &&& (s[1] == 'r' || s[1] == 'R')
    &&& (s[2] == 'n' || s[2] == 'N')
    &&& s[3] == ':'
    &&& (s[4] == 'u' || s[4] == 'U')
    &&& (s[5] == 'u' || s[5] == 'U')
    &&& (s[6] == 'i' || s[6] == 'I')
    &&& (s[7] == 'd' || s[7] == 'D')
    &&& s[8] == ':'
}

/// The value of an identifier in any accepted text form: 32 bare digits,
/// the hyphenated form, the hyphenated form in braces, or the hyphenated
/// form after a `urn:uuid:` prefix.
pub open spec fn uuid_value_of(s: Seq<char>) -> Option<u128> {
    if s.len() == 32 {
        if all_hex(s) {
            Some(hex_value(s) as u128)
        } else {
            None
        }
    } else if s.len() == 36 {
        hyphenated_value(s)
    } else if s.len() == 38 {
        if s[0] == '{' && s[37] == '}' {
            hyphenated_value(s.subrange(1, 37))
        } else {
            None
        }
    } else if s.len() == 45 {
        if is_urn_prefix(s.subrange(0, 9)) {
            hyphenated_value(s.subrange(9, 45))
        } else {
            None
        }
    } else {
        None
    }
}

/// Relies on `uuid::Uuid::parse_str` and `Uuid::as_u128`: the parser accepts
/// exactly the simple, hyphenated, braced and URN text forms, with digits of
/// either case, and the value is the 32 digits read in order as one
/// big-endian 128-bit number.
#[verifier::external_body]
pub fn uuid_parse(s: &str) -> (r: Option<u128>)
    ensures
        r == uuid_value_of(s@),
{
    match uuid::Uuid::parse_str(s) {
        Ok(u) => Some(u.as_u128()),
        Err(_) => None,
    }
}

/// Relies on `uuid::Uuid::from_u128` and the `Display` form of `Uuid`: the
/// hyphenated lower-case text of the value's 32 digits.
#[verifier::external_body]
pub fn uuid_format(u: u128) -> (r: String)
    ensures
        r@ == uuid_str_of(u),
{
    uuid::Uuid::from_u128(u).to_string()
}

/// Shape of the hyphenated form: 36 characters, each a lower-case digit or a
/// hyphen, so the form never holds a quote or a backslash.
pub proof fn lemma_uuid_str_shape(u: u128)
    ensures
        uuid_str_of(u).len() == 36,
        forall|i: int|
            0 <= i < 36 ==> (is_lower_hex_digit(#[trigger] uuid_str_of(u)[i])
                || uuid_str_of(u)[i] == '-'),
{
    lemma_pow16_32();
    lemma_hex_digits_value(u as int, 32);
}

pub proof fn lemma_pow16_32()
    ensures
        pow16(32) == 0x100000000000000000000000000000000,
{
    reveal_with_fuel(pow16, 33);
}

/// Parsing the hyphenated form of a value yields that value back.
pub proof fn lemma_uuid_round_trip(u: u128)
    ensures
        uuid_value_of(uuid_str_of(u)) == Some(u),
{
    lemma_pow16_32();
    lemma_hex_digits_value(u as int, 32);
    let d = simple_of(u);
    let s = uuid_str_of(u);
    assert(s.len() == 36);
    lemma_uuid_str_shape(u);
    assert(s[8] == '-' && s[13] == '-' && s[18] == '-' && s[23] == '-');
    let d2 = s.subrange(0, 8) + s.subrange(9, 13) + s.subrange(14, 18) + s.subrange(19, 23)
        + s.subrange(24, 36);
    assert(d2 =~= d);
    assert(hex_value(d) == u as int);
}

} // verus!
