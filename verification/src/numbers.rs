//! Numbers inside color specifications: decimal `u8` values (`"255"`,
//! `"colour42"`, `"player_3"`) and `RRGGBB` hex triples.
use vstd::prelude::*;
use vstd::utf8::{encode_utf8, is_char_boundary};

verus! {

/// The value of an ASCII decimal digit.
pub open spec fn decimal_digit(c: char) -> Option<nat> {
    if '0' <= c && c <= '9' {
        Some((c as nat - '0' as nat) as nat)
    } else {
        None
    }
}

/// All characters are ASCII decimal digits.
pub open spec fn all_decimal(s: Seq<char>) -> bool {
    forall|i: int| 0 <= i < s.len() ==> (#[trigger] decimal_digit(s[i])) is Some
}

/// The number that a string of decimal digits denotes.
pub open spec fn decimal_value(s: Seq<char>) -> nat
    decreases s.len(),
{
    if s.len() == 0 {
        0
    } else {
        decimal_value(s.drop_last()) * 10 + match decimal_digit(s.last()) {
            Some(d) => d,
            None => 0,
        }
    }
}

/// What `str::parse::<u8>` accepts: an optional `+`, then one or more
/// decimal digits whose value fits in a `u8`.
pub open spec fn parse_u8_decimal(s: Seq<char>) -> Option<u8> {
    let digits = if s.len() > 0 && s[0] == '+' {
        s.drop_first()
    } else {
        s
    };
    if digits.len() > 0 && all_decimal(digits) && decimal_value(digits) <= 255 {
        Some(decimal_value(digits) as u8)
    } else {
        None
    }
}

proof fn lemma_decimal_value_monotone(s: Seq<char>, k: int)
    requires
        0 <= k <= s.len(),
        all_decimal(s),
    ensures
        decimal_value(s.take(k)) <= decimal_value(s),
    decreases s.len() - k,
{
    if k < s.len() {
        lemma_decimal_value_monotone(s, k + 1);
        assert(s.take(k + 1).drop_last() == s.take(k));
    } else {
        assert(s.take(k) == s);
    }
}

/// Parses a decimal `u8` as `str::parse::<u8>` does.
pub fn parse_u8_chars(s: &[char]) -> (r: Option<u8>)
    ensures
        r == parse_u8_decimal(s@),
{
    let start: usize = if s.len() > 0 && s[0] == '+' {
        1
    } else {
        0
    };
    let ghost digits = if s@.len() > 0 && s@[0] == '+' {
        s@.drop_first()
    } else {
        s@
    };
    assert(digits == s@.skip(start as int));
    if start >= s.len() {
        return None;
    }
    let mut value: u32 = 0;
    let mut i = start;
    while i < s.len()
        invariant
            start <= i <= s@.len(),
            start < s@.len(),
            digits == s@.skip(start as int),
            digits == (if s@.len() > 0 && s@[0] == '+' {
                s@.drop_first()
            } else {
                s@
            }),
            all_decimal(s@.subrange(start as int, i as int)),
            value == decimal_value(s@.subrange(start as int, i as int)),
            value <= 255,
        decreases s@.len() - i,
    {
        let c = s[i];
        if !('0' <= c && c <= '9') {
            assert(digits[i - start] == c);
            assert(decimal_digit(digits[i - start]) is None);
            assert(!all_decimal(digits));
            return None;
        }
        let d = (c as u32) - ('0' as u32);
        let ghost prev = s@.subrange(start as int, i as int);
        let ghost next = s@.subrange(start as int, i + 1);
        assert(next.drop_last() == prev);
        assert(next.last() == c);
        assert(all_decimal(next)) by {
            assert forall|m: int| 0 <= m < next.len() implies (#[trigger] decimal_digit(next[m])) is Some by {
                if m < prev.len() {
                    assert(next[m] == prev[m]);
                }
            }
        }
        value = value * 10 + d;
        i += 1;
        if value > 255 {
            proof {
                if all_decimal(digits) {
                    lemma_decimal_value_monotone(digits, i - start);
                    assert(digits.take(i - start) == s@.subrange(start as int, i as int));
                }
            }
            return None;
        }
    }
    assert(s@.subrange(start as int, s@.len() as int) == digits);
    Some(value as u8)
}

/// An error of [`hex_to_rgb`].
#[derive(Clone, Copy, Debug, PartialEq, Eq, Structural)]
pub enum HexColorError {
    /// The text is not six bytes long.
    WrongLength,
    /// A two-byte group is not a hexadecimal number.
    InvalidDigit,
}

/// The value of an ASCII hexadecimal digit byte (either case).
pub open spec fn hex_digit(b: u8) -> Option<u8> {
    if 48 <= b <= 57 {
        Some((b - 48) as u8)
    } else if 97 <= b <= 102 {
        Some((b - 87) as u8)
    } else if 65 <= b <= 70 {
        Some((b - 55) as u8)
    } else {
        None
    }
}

/// What `u8::from_str_radix(_, 16)` gives for a two-byte text: an optional
/// `+` then hexadecimal digits.
pub open spec fn hex_pair(b0: u8, b1: u8) -> Option<u8> {
    if b0 == 43 {
        hex_digit(b1)
    } else {
        match (hex_digit(b0), hex_digit(b1)) {
            (Some(h), Some(l)) => Some((h * 16 + l) as u8),
            _ => None,
        }
    }
}

/// The value of the `k`-th two-byte group of `bytes`.
pub open spec fn hex_group(bytes: Seq<u8>, k: int) -> Option<u8> {
    hex_pair(bytes[2 * k], bytes[2 * k + 1])
}

/// The three values of a six-byte `RRGGBB` text, or which error it gives.
pub open spec fn hex_triple(bytes: Seq<u8>) -> Result<Seq<u8>, HexColorError> {
    if bytes.len() != 6 {
        Err(HexColorError::WrongLength)
    } else if hex_group(bytes, 0) is None || hex_group(bytes, 1) is None || hex_group(bytes, 2) is None {
        Err(HexColorError::InvalidDigit)
    } else {
        Ok(seq![hex_group(bytes, 0)->0, hex_group(bytes, 1)->0, hex_group(bytes, 2)->0])
    }
}

/// The UTF-8 text `bytes` cannot be cut into two-byte groups: a group would
/// end inside a character before an invalid group stops the parse.
pub open spec fn hex_groups_split_char(bytes: Seq<u8>) -> bool {
    &&& bytes.len() == 6
    &&& {
        ||| !is_char_boundary(bytes, 2)
        ||| (hex_group(bytes, 0) is Some && !is_char_boundary(bytes, 4))
    }
}

/// Parses `RRGGBB` into its three bytes; each group is read as
/// `u8::from_str_radix(group, 16)` reads it.
pub fn hex_to_rgb(s: &str) -> (r: Result<Vec<u8>, HexColorError>)
    requires
        !hex_groups_split_char(encode_utf8(s@)),
    ensures
        match r {
            Ok(v) => hex_triple(encode_utf8(s@)) == Ok::<Seq<u8>, HexColorError>(v@),
            Err(e) => hex_triple(encode_utf8(s@)) == Err::<Seq<u8>, HexColorError>(e),
        },
{
    let bytes = s.as_bytes();
    if bytes.len() != 6 {
        return Err(HexColorError::WrongLength);
    }
    let mut out: Vec<u8> = Vec::new();
    let mut k: usize = 0;
    while k < 3
        invariant
            bytes@ == encode_utf8(s@),
            bytes@.len() == 6,
            k <= 3,
            out@.len() == k,
            forall|m: int| 0 <= m < k ==> hex_group(bytes@, m) == Some(#[trigger] out@[m]),
        decreases 3 - k,
    {
        match hex_pair_exec(bytes[2 * k], bytes[2 * k + 1]) {
            Some(v) => out.push(v),
            None => return Err(HexColorError::InvalidDigit),
        }
        k += 1;
    }
    assert(out@ == seq![out@[0], out@[1], out@[2]]);
    Ok(out)
}

/// Whether reading `s` as `RRGGBB` would cut a character (see
/// [`hex_groups_split_char`]); [`hex_to_rgb`] needs this to be false.
pub fn hex_groups_cut_character(s: &str) -> (b: bool)
    ensures
        b == hex_groups_split_char(encode_utf8(s@)),
{
    let bytes = s.as_bytes();
    if bytes.len() != 6 {
        return false;
    }
    if !s.is_char_boundary(2) {
        return true;
    }
    hex_pair_exec(bytes[0], bytes[1]).is_some() && !s.is_char_boundary(4)
}

fn hex_digit_exec(b: u8) -> (r: Option<u8>)
    ensures
        r == hex_digit(b),
{
    if 48 <= b && b <= 57 {
        Some(b - 48)
    } else if 97 <= b && b <= 102 {
        Some(b - 87)
    } else if 65 <= b && b <= 70 {
        Some(b - 55)
    } else {
        None
    }
}

fn hex_pair_exec(b0: u8, b1: u8) -> (r: Option<u8>)
    ensures
        r == hex_pair(b0, b1),
{
    if b0 == 43 {
        hex_digit_exec(b1)
    } else {
        match (hex_digit_exec(b0), hex_digit_exec(b1)) {
            (Some(h), Some(l)) => Some(h * 16 + l),
            _ => None,
        }
    }
}

} // verus!
