//! JSON string bodies: escaping a text for a quoted JSON string, and reading
//! one back up to its closing quote. The escape form is the canonical one the
//! payload encoder writes: `\"`, `\\`, the short controls `\b \t \n \f \r`,
//! and `\u00xx` for the other control characters.

use vstd::prelude::*;

use crate::hex::{hex_char, hex_char_of, hex_val, hex_val_of, is_hex_digit, lemma_hex_char_val};

verus! {

/// Every character of the text is a Unicode scalar value, as every character
/// read out of an executable text is.
pub open spec fn chars_valid(s: Seq<char>) -> bool {
    forall|k: int|
        0 <= k < s.len() ==> 0 <= (#[trigger] s[k]) as int <= 0x10FFFF && !(0xD800 <= s[k] as int
            <= 0xDFFF)
}

/// The escape of one character in a JSON string body.
pub open spec fn escape_char(c: char) -> Seq<char> {
    if c == '"' {
        seq!['\\', '"']
    } else if c == '\\' {
        seq!['\\', '\\']
    } else if c == '\u{8}' {
        seq!['\\', 'b']
    } else if c == '\t' {
        seq!['\\', 't']
    } else if c == '\n' {
        seq!['\\', 'n']
    } else if c == '\u{c}' {
        seq!['\\', 'f']
    } else if c == '\r' {
        seq!['\\', 'r']
    } else if (c as int) < 32 {
        seq!['\\', 'u', '0', '0', hex_char(c as int / 16), hex_char(c as int % 16)]
    } else {
        seq![c]
    }
}

/// The escaped body of a JSON string holding the text `s`.
pub open spec fn escape(s: Seq<char>) -> Seq<char>
    decreases s.len(),
{
    if s.len() == 0 {
        Seq::empty()
    } else {
        escape_char(s[0]) + escape(s.drop_first())
    }
}

/// The character named by a single-letter escape.
pub open spec fn unescaped_of(e: char) -> char {
    if e == 'b' {
        '\u{8}'
    } else if e == 't' {
        '\t'
    } else if e == 'n' {
        '\n'
    } else if e == 'f' {
        '\u{c}'
    } else if e == 'r' {
        '\r'
    } else {
        e
    }
}

/// Reads a JSON string body in `s` from position `i` up to its closing
/// quote. Yields the text and the position just past the quote. Accepted
/// escapes: `\" \\ \/ \b \t \n \f \r` and `\uXXXX` naming a Unicode scalar
/// value; an unescaped control character, a bad escape, or a missing quote
/// fails.
pub open spec fn unescape_from(s: Seq<char>, i: int) -> Option<(Seq<char>, int)>
    decreases s.len() - i,
{
    if i < 0 || i >= s.len() {
        None
    } else if s[i] == '"' {
        Some((Seq::empty(), i + 1))
    } else if s[i] == '\\' {
        if i + 2 > s.len() {
            None
        } else {
            let e = s[i + 1];
            if e == '"' || e == '\\' || e == '/' || e == 'b' || e == 't' || e == 'n' || e == 'f'
                || e == 'r' {
                match unescape_from(s, i + 2) {
                    Some((rest, end)) => Some((seq![unescaped_of(e)] + rest, end)),
                    None => None,
                }
            } else if e == 'u' {
                if i + 6 > s.len() {
                    None
                } else if is_hex_digit(s[i + 2]) && is_hex_digit(s[i + 3]) && is_hex_digit(
                    s[i + 4],
                ) && is_hex_digit(s[i + 5]) {
                    let v = 4096 * hex_val(s[i + 2]) + 256 * hex_val(s[i + 3]) + 16 * hex_val(
                        s[i + 4],
                    ) + hex_val(s[i + 5]);
                    if v < 0xD800 || 0xE000 <= v {
                        match unescape_from(s, i + 6) {
                            Some((rest, end)) => Some((seq![v as char] + rest, end)),
                            None => None,
                        }
                    } else {
                        None
                    }
                } else {
                    None
                }
            } else {
                None
            }
        }
    } else if (s[i] as int) < 32 {
        None
    } else {
        match unescape_from(s, i + 1) {
            Some((rest, end)) => Some((seq![s[i]] + rest, end)),
            None => None,
        }
    }
}

/// A successful read ends past where it started and within the text.
pub proof fn lemma_unescape_end(s: Seq<char>, i: int)
    requires
        unescape_from(s, i) is Some,
    ensures
        i < unescape_from(s, i)->Some_0.1 <= s.len(),
    decreases s.len() - i,
{
    if s[i] == '"' {
    } else if s[i] == '\\' {
        let e = s[i + 1];
        if e == 'u' {
            lemma_unescape_end(s, i + 6);
        } else {
            lemma_unescape_end(s, i + 2);
        }
    } else {
        lemma_unescape_end(s, i + 1);
    }
}

/// Escaping one more character appends that character's escape.
pub proof fn lemma_escape_snoc(s: Seq<char>, c: char)
    ensures
        escape(s.push(c)) == escape(s) + escape_char(c),
    decreases s.len(),
{
    if s.len() == 0 {
        let t = s.push(c);
        assert(t.len() == 1);
        assert(t[0] == c);
        assert(escape(t) == escape_char(t[0]) + escape(t.drop_first()));
        assert(t.drop_first() =~= Seq::<char>::empty());
        assert(escape(t.drop_first()) == Seq::<char>::empty());
        assert(escape(t) =~= escape(s) + escape_char(c));
    } else {
        assert(s.push(c)[0] == s[0]);
        assert(s.push(c).drop_first() =~= s.drop_first().push(c));
        lemma_escape_snoc(s.drop_first(), c);
        assert(escape(s.push(c)) =~= escape(s) + escape_char(c));
    }
}

/// Reading back an escaped text followed by a closing quote yields the text
/// and stops just past the quote.
#[verifier::rlimit(100)]
pub proof fn lemma_unescape_escape(s: Seq<char>, i: int, name: Seq<char>)
    requires
        chars_valid(name),
        0 <= i,
        i + escape(name).len() + 1 <= s.len(),
        s.subrange(i, i + escape(name).len() as int) == escape(name),
        s[i + escape(name).len() as int] == '"',
    ensures
        unescape_from(s, i) == Some((name, i + escape(name).len() + 1)),
    decreases name.len(),
{
    let b = escape(name);
    assert(forall|k: int| 0 <= k < b.len() ==> s[i + k] == #[trigger] b[k]) by {
        assert(forall|k: int|
            0 <= k < b.len() ==> s.subrange(i, i + b.len() as int)[k] == #[trigger] b[k]);
    }
    if name.len() == 0 {
        assert(s[i] == '"');
    } else {
        let c = name[0];
        let tail = name.drop_first();
        assert(0 <= (c as int) <= 0x10FFFF);
        assert(chars_valid(tail)) by {
            assert(forall|k: int|
                0 <= k < tail.len() ==> #[trigger] tail[k] == name[k + 1]);
        }
        let ec = escape_char(c);
        let bt = escape(tail);
        assert(b == ec + bt);
        assert(forall|k: int| 0 <= k < ec.len() ==> (ec + bt)[k] == #[trigger] ec[k]);
        assert(forall|k: int|
            0 <= k < bt.len() ==> (ec + bt)[ec.len() + k] == #[trigger] bt[k]);
        let j = i + ec.len();
        assert(s.subrange(j, j + bt.len() as int) =~= bt);
        assert(s[j + bt.len() as int] == '"');
        lemma_unescape_escape(s, j, tail);
        assert(unescape_from(s, j) == Some((tail, j + bt.len() + 1)));
        assert(seq![c] + tail =~= name);
        if c == '"' || c == '\\' {
            assert(b[0] == '\\' && b[1] == c);
            assert(s[i] == '\\' && s[i + 1] == c);
            assert(unescaped_of(c) == c);
        } else if c == '\u{8}' || c == '\t' || c == '\n' || c == '\u{c}' || c == '\r' {
            assert(b[0] == '\\');
            assert(s[i] == '\\');
            assert(unescaped_of(s[i + 1]) == c);
        } else if (c as int) < 32 {
            let h1 = hex_char(c as int / 16);
            let h2 = hex_char(c as int % 16);
            assert(b[0] == '\\' && b[1] == 'u' && b[2] == '0' && b[3] == '0' && b[4] == h1 && b[5]
                == h2);
            assert(s[i] == '\\' && s[i + 1] == 'u' && s[i + 2] == '0' && s[i + 3] == '0' && s[i
                + 4] == h1 && s[i + 5] == h2);
            assert(0 <= (c as int) && (c as int) < 32);
            assert(0 <= (c as int) / 16 && (c as int) / 16 < 2);
            assert(0 <= (c as int) % 16 && (c as int) % 16 < 16);
            lemma_hex_char_val(c as int / 16);
            lemma_hex_char_val(c as int % 16);
            lemma_hex_char_val(0);
            let v = 4096 * hex_val(s[i + 2]) + 256 * hex_val(s[i + 3]) + 16 * hex_val(s[i + 4])
                + hex_val(s[i + 5]);
            assert(v == 16 * (c as int / 16) + c as int % 16);
            assert(v == c as int);
            assert(v as char == c);
        } else {
            assert(ec == seq![c]);
            assert(b[0] == c);
            assert(s[i] == c);
            assert(s[i] != '"' && s[i] != '\\' && !((s[i] as int) < 32));
        }
    }
}

/// Whether the character is one of the control characters a JSON string
/// body may not hold unescaped.
fn is_control(c: char) -> (r: bool)
    ensures
        r == ((c as int) < 32),
{
    let v = c as u32;
    v < 32
}

/// The two hexadecimal digits of a control character's code.
fn control_nibbles(c: char) -> (r: (u8, u8))
    requires
        (c as int) < 32,
    ensures
        r.0 as int == (c as int) / 16,
        r.1 as int == (c as int) % 16,
        r.0 < 16,
        r.1 < 16,
{
    let v = c as u32;
    ((v / 16) as u8, (v % 16) as u8)
}

/// A suffix read, with the text already read in front of it: the shape of
/// the partial result an iterative reader holds.
pub open spec fn unescape_with(s: Seq<char>, j: int, acc: Seq<char>) -> Option<(Seq<char>, int)> {
    match unescape_from(s, j) {
        Some((rest, end)) => Some((acc + rest, end)),
        None => None,
    }
}

/// Reads a JSON string body out of `chars` from `start`, as `unescape_from`
/// describes it.
pub fn unescape_exec(chars: &Vec<char>, start: usize) -> (r: Option<(String, usize)>)
    ensures
        match r {
            Some(p) => unescape_from(chars@, start as int) == Some((p.0@, p.1 as int)),
            None => unescape_from(chars@, start as int) is None,
        },
{
    let ghost s = chars@;
    let mut acc = String::new();
    let mut j: usize = start;
    loop
        invariant
            s == chars@,
            start <= j,
            unescape_from(s, start as int) == unescape_with(s, j as int, acc@),
        decreases s.len() - j,
    {
        if j >= chars.len() {
            return None;
        }
        let c = chars[j];
        if c == '"' {
            return Some((acc, j + 1));
        } else if c == '\\' {
            if j + 1 >= chars.len() {
                return None;
            }
            let e = chars[j + 1];
            if e == '"' || e == '\\' || e == '/' {
                proof {
                    lemma_unescape_step(s, j as int, j + 2, e, acc@);
                }
                push_char(&mut acc, e);
                j = j + 2;
            } else if e == 'b' {
                proof {
                    lemma_unescape_step(s, j as int, j + 2, '\u{8}', acc@);
                }
                push_char(&mut acc, '\u{8}');
                j = j + 2;
            } else if e == 't' {
                proof {
                    lemma_unescape_step(s, j as int, j + 2, '\t', acc@);
                }
                push_char(&mut acc, '\t');
                j = j + 2;
            } else if e == 'n' {
                proof {
                    lemma_unescape_step(s, j as int, j + 2, '\n', acc@);
                }
                push_char(&mut acc, '\n');
                j = j + 2;
            } else if e == 'f' {
                proof {
                    lemma_unescape_step(s, j as int, j + 2, '\u{c}', acc@);
                }
                push_char(&mut acc, '\u{c}');
                j = j + 2;
            } else if e == 'r' {
                proof {
                    lemma_unescape_step(s, j as int, j + 2, '\r', acc@);
                }
                push_char(&mut acc, '\r');
                j = j + 2;
            } else if e == 'u' {
                if chars.len() - j < 6 {
                    return None;
                }
                let v1 = hex_val_of(chars[j + 2]);
                let v2 = hex_val_of(chars[j + 3]);
                let v3 = hex_val_of(chars[j + 4]);
                let v4 = hex_val_of(chars[j + 5]);
                match (v1, v2, v3, v4) {
                    (Some(a), Some(b), Some(d), Some(g)) => {
                        let v: u32 = 4096 * (a as u32) + 256 * (b as u32) + 16 * (d as u32) + (
                        g as u32);
                        if v < 0xD800 || 0xE000 <= v {
                            match char_from_u32(v) {
                                Some(c2) => {
                                    proof {
                                        lemma_unescape_step(s, j as int, j + 6, c2, acc@);
                                    }
                                    push_char(&mut acc, c2);
                                    j = j + 6;
                                },
                                None => {
                                    proof {
                                        assert(false);
                                    }
                                    return None;
                                },
                            }
                        } else {
                            return None;
                        }
                    },
                    _ => {
                        return None;
                    },
                }
            } else {
                return None;
            }
        } else if is_control(c) {
            return None;
        } else {
            proof {
                lemma_unescape_step(s, j as int, j + 1, c, acc@);
            }
            push_char(&mut acc, c);
            j = j + 1;
        }
    }
}

/// One step of the iterative reader: when reading at `j` yields one
/// character `x` and then whatever reading at `jn` yields, carrying `x` into
/// the accumulator keeps the whole result.
proof fn lemma_unescape_step(s: Seq<char>, j: int, jn: int, x: char, acc: Seq<char>)
    requires
        unescape_from(s, j) == (match unescape_from(s, jn) {
            Some((rest, end)) => Some::<(Seq<char>, int)>((seq![x] + rest, end)),
            None => None::<(Seq<char>, int)>,
        }),
    ensures
        unescape_with(s, j, acc) == unescape_with(s, jn, acc.push(x)),
{
    match unescape_from(s, jn) {
        Some((rest, end)) => {
            assert(acc + (seq![x] + rest) =~= acc.push(x) + rest);
        },
        None => {},
    }
}

/// Relies on `String::push`: appends one character at the end.
#[verifier::external_body]
pub fn push_char(s: &mut String, c: char)
    ensures
        final(s)@ == old(s)@.push(c),
{
    s.push(c);
}

/// Relies on `char::from_u32`: `Some` exactly for Unicode scalar values.
#[verifier::external_body]
pub fn char_from_u32(v: u32) -> (r: Option<char>)
    ensures
        r == if v < 0xD800 || (0xE000 <= v && v <= 0x10FFFF) {
            Some(v as char)
        } else {
            None::<char>
        },
{
    char::from_u32(v)
}

/// The characters of a text, one vector entry each.
pub fn str_to_chars(s: &str) -> (v: Vec<char>)
    ensures
        v@ == s@,
{
    let n = s.unicode_len();
    let mut v: Vec<char> = Vec::new();
    let mut i: usize = 0;
    while i < n
        invariant
            n == s@.len(),
            i <= n,
            v@ =~= s@.subrange(0, i as int),
        decreases n - i,
    {
        v.push(s.get_char(i));
        i = i + 1;
    }
    assert(v@ =~= s@);
    v
}

/// Appends the escaped JSON string body for `name` to `out`.
pub fn append_escaped(out: &mut String, name: &str)
    ensures
        final(out)@ == old(out)@ + escape(name@),
{
    let chars = str_to_chars(name);
    let mut i: usize = 0;
    while i < chars.len()
        invariant
            chars@ == name@,
            i <= chars@.len(),
            out@ == old(out)@ + escape(chars@.take(i as int)),
        decreases chars@.len() - i,
    {
        let c = chars[i];
        proof {
            lemma_escape_snoc(chars@.take(i as int), c);
            assert(chars@.take(i as int).push(c) =~= chars@.take(i + 1));
        }
        if c == '"' {
            proof {
                reveal_strlit("\\\"");
                assert(escape_char(c) =~= "\\\""@);
            }
            out.append("\\\"");
        } else if c == '\\' {
            proof {
                reveal_strlit("\\\\");
                assert(escape_char(c) =~= "\\\\"@);
            }
            out.append("\\\\");
        } else if c == '\u{8}' {
            proof {
                reveal_strlit("\\b");
                assert(escape_char(c) =~= "\\b"@);
            }
            out.append("\\b");
        } else if c == '\t' {
            proof {
                reveal_strlit("\\t");
                assert(escape_char(c) =~= "\\t"@);
            }
            out.append("\\t");
        } else if c == '\n' {
            proof {
                reveal_strlit("\\n");
                assert(escape_char(c) =~= "\\n"@);
            }
            out.append("\\n");
        } else if c == '\u{c}' {
            proof {
                reveal_strlit("\\f");
                assert(escape_char(c) =~= "\\f"@);
            }
            out.append("\\f");
        } else if c == '\r' {
            proof {
                reveal_strlit("\\r");
                assert(escape_char(c) =~= "\\r"@);
            }
            out.append("\\r");
        } else if is_control(c) {
            proof {
                reveal_strlit("\\u00");
            }
            let nib = control_nibbles(c);
            out.append("\\u00");
            push_char(out, hex_char_of(nib.0));
            push_char(out, hex_char_of(nib.1));
            proof {
                assert("\\u00"@.push(hex_char((c as int) / 16)).push(
                    hex_char((c as int) % 16),
                ) =~= escape_char(c));
            }
        } else {
            proof {
                assert(escape_char(c) =~= seq![c]);
            }
            push_char(out, c);
        }
        proof {
            assert(out@ =~= old(out)@ + escape(chars@.take(i + 1)));
        }
        i = i + 1;
    }
    proof {
        assert(chars@.take(chars@.len() as int) =~= name@);
    }
}

/// Whether `pat` stands in `chars` at position `pos`.
pub fn matches_at(chars: &Vec<char>, pos: usize, pat: &Vec<char>) -> (r: bool)
    ensures
        r == (pos + pat@.len() <= chars@.len() && chars@.subrange(
            pos as int,
            pos as int + pat@.len() as int,
        ) == pat@),
{
    if chars.len() < pat.len() || pos > chars.len() - pat.len() {
        return false;
    }
    let n = chars.len();
    let mut k: usize = 0;
    while k < pat.len()
        invariant
            k <= pat@.len(),
            n == chars@.len(),
            pos + pat@.len() <= n,
            forall|t: int| 0 <= t < k ==> chars@[pos + t] == #[trigger] pat@[t],
        decreases pat@.len() - k,
    {
        if chars[pos + k] != pat[k] {
            proof {
                assert(chars@.subrange(pos as int, pos as int + pat@.len() as int)[k as int]
                    == chars@[pos + k]);
            }
            return false;
        }
        k = k + 1;
    }
    proof {
        assert(chars@.subrange(pos as int, pos as int + pat@.len() as int) =~= pat@);
    }
    true
}

/// A text holding the given characters in order.
pub fn chars_to_string(v: &[char], from: usize, to: usize) -> (r: String)
    requires
        from <= to <= v@.len(),
    ensures
        r@ == v@.subrange(from as int, to as int),
{
    let mut r = String::new();
    let mut i: usize = from;
    while i < to
        invariant
            from <= i <= to <= v@.len(),
            r@ =~= v@.subrange(from as int, i as int),
        decreases to - i,
    {
        push_char(&mut r, v[i]);
        i = i + 1;
    }
    assert(r@ =~= v@.subrange(from as int, to as int));
    r
}

} // verus!
