//! Hexadecimal digits and the value of a digit string, shared by the
//! identifier text forms and the payload codec.

use vstd::prelude::*;

verus! {

/// A hexadecimal digit in either case.
pub open spec fn is_hex_digit(c: char) -> bool {
    ('0' <= c && c <= '9') || ('a' <= c && c <= 'f') || ('A' <= c && c <= 'F')
}

/// A hexadecimal digit as written by the formatters here: lower case only.
pub open spec fn is_lower_hex_digit(c: char) -> bool {
    ('0' <= c && c <= '9') || ('a' <= c && c <= 'f')
}

/// The numeric value of a hexadecimal digit.
pub open spec fn hex_val(c: char) -> int {
    if '0' <= c && c <= '9' {
        c as int - '0' as int
    } else if 'a' <= c && c <= 'f' {
        10 + (c as int - 'a' as int)
    } else {
        10 + (c as int - 'A' as int)
    }
}

/// The lower-case digit for a value below 16.
pub open spec fn hex_char(n: int) -> char {
    if n == 0 {
        '0'
    } else if n == 1 {
        '1'
    } else if n == 2 {
        '2'
    } else if n == 3 {
        '3'
    } else if n == 4 {
        '4'
    } else if n == 5 {
        '5'
    } else if n == 6 {
        '6'
    } else if n == 7 {
        '7'
    } else if n == 8 {
        '8'
    } else if n == 9 {
        '9'
    } else if n == 10 {
        'a'
    } else if n == 11 {
        'b'
    } else if n == 12 {
        'c'
    } else if n == 13 {
        'd'
    } else if n == 14 {
        'e'
    } else {
        'f'
    }
}

pub open spec fn all_hex(s: Seq<char>) -> bool {
    forall|i: int| 0 <= i < s.len() ==> is_hex_digit(#[trigger] s[i])
}

/// The value of a digit string read most significant digit first.
pub open spec fn hex_value(s: Seq<char>) -> int
    decreases s.len(),
{
    if s.len() == 0 {
        0
    } else {
        16 * hex_value(s.drop_last()) + hex_val(s.last())
    }
}

pub open spec fn pow16(n: nat) -> int
    decreases n,
{
    if n == 0 {
        1
    } else {
        16 * pow16((n - 1) as nat)
    }
}

/// The `n` lower-case digits of `v`, most significant first.
pub open spec fn hex_digits(v: int, n: nat) -> Seq<char>
    decreases n,
{
    if n == 0 {
        Seq::empty()
    } else {
        hex_digits(v / 16, (n - 1) as nat).push(hex_char(v % 16))
    }
}

pub proof fn lemma_hex_char_val(n: int)
    requires
        0 <= n < 16,
    ensures
        is_lower_hex_digit(hex_char(n)),
        is_hex_digit(hex_char(n)),
        hex_val(hex_char(n)) == n,
{
}

/// The lower-case digit character for a value below 16.
pub fn hex_char_of(n: u8) -> (c: char)
    requires
        n < 16,
    ensures
        c == hex_char(n as int),
{
    match n {
        0 => '0',
        1 => '1',
        2 => '2',
        3 => '3',
        4 => '4',
        5 => '5',
        6 => '6',
        7 => '7',
        8 => '8',
        9 => '9',
        10 => 'a',
        11 => 'b',
        12 => 'c',
        13 => 'd',
        14 => 'e',
        _ => 'f',
    }
}

/// The value of a digit character, or nothing for a non-digit.
pub fn hex_val_of(c: char) -> (r: Option<u8>)
    ensures
        match r {
            Some(v) => is_hex_digit(c) && v as int == hex_val(c) && v < 16,
            None => !is_hex_digit(c),
        },
{
    if '0' <= c && c <= '9' {
        Some((c as u32 - '0' as u32) as u8)
    } else if 'a' <= c && c <= 'f' {
        Some((10 + (c as u32 - 'a' as u32)) as u8)
    } else if 'A' <= c && c <= 'F' {
        Some((10 + (c as u32 - 'A' as u32)) as u8)
    } else {
        None
    }
}

/// Formatting `v` with `n` digits and reading the digits back yields `v`.
pub proof fn lemma_hex_digits_value(v: int, n: nat)
    requires
        0 <= v < pow16(n),
    ensures
        hex_digits(v, n).len() == n,
        forall|i: int|
            0 <= i < n ==> is_lower_hex_digit(#[trigger] hex_digits(v, n)[i]),
        hex_value(hex_digits(v, n)) == v,
    decreases n,
{
    if n == 0 {
    } else {
        let q = v / 16;
        let r = v % 16;
        assert(0 <= r < 16);
        assert(v == 16 * q + r) by (nonlinear_arith)
            requires
                q == v / 16,
                r == v % 16,
        ;
        assert(q < pow16((n - 1) as nat)) by (nonlinear_arith)
            requires
                v < 16 * pow16((n - 1) as nat),
                q == v / 16,
                v >= 0,
        ;
        lemma_hex_digits_value(q, (n - 1) as nat);
        lemma_hex_char_val(r);
        let d = hex_digits(q, (n - 1) as nat);
        assert(hex_digits(v, n) == d.push(hex_char(r)));
        assert(d.push(hex_char(r)).drop_last() == d);
        assert(hex_value(hex_digits(v, n)) == 16 * hex_value(d) + hex_val(hex_char(r)));
    }
}

} // verus!
