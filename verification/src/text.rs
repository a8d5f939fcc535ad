//! Decimal and hexadecimal text of integers: written as `format!` writes
//! them, and read as `from_str_radix` reads them.

use vstd::prelude::*;
use vstd::string::StringExecFns;
use crate::error::{Error, Result};

verus! {

/// The character of a digit below 16: `0`-`9`, then `a`-`f`.
pub open spec fn digit_char(d: int) -> char {
    if d < 10 {
        (48 + d) as char
    } else {
        (87 + d) as char
    }
}

/// Decimal digits of `n`, without leading zeros (`0` for zero).
pub open spec fn decimal(n: nat) -> Seq<char>
    decreases n,
{
    if n < 10 {
        seq![digit_char(n as int)]
    } else {
        decimal(n / 10).push(digit_char((n % 10) as int))
    }
}

/// Decimal text of a signed number: a `-` before the digits of a negative one.
pub open spec fn signed_decimal(v: int) -> Seq<char> {
    if v < 0 {
        seq!['-'] + decimal((-v) as nat)
    } else {
        decimal(v as nat)
    }
}

/// The last `k` hexadecimal digits of `n`, lower case, zeros in front.
pub open spec fn hex_digits(n: nat, k: nat) -> Seq<char>
    decreases k,
{
    if k == 0 {
        Seq::empty()
    } else {
        hex_digits(n / 16, (k - 1) as nat).push(digit_char((n % 16) as int))
    }
}

/// A digit below 16 as a one-character string.
fn digit_str(d: u64) -> (r: &'static str)
    requires
        d < 16,
    ensures
        r@ == seq![digit_char(d as int)],
{
    proof {
        reveal_strlit("0");
        reveal_strlit("1");
        reveal_strlit("2");
        reveal_strlit("3");
        reveal_strlit("4");
        reveal_strlit("5");
        reveal_strlit("6");
        reveal_strlit("7");
        reveal_strlit("8");
        reveal_strlit("9");
        reveal_strlit("a");
        reveal_strlit("b");
        reveal_strlit("c");
        reveal_strlit("d");
        reveal_strlit("e");
        reveal_strlit("f");
    }
    match d {
        0 => "0",
        1 => "1",
        2 => "2",
        3 => "3",
        4 => "4",
        5 => "5",
        6 => "6",
        7 => "7",
        8 => "8",
        9 => "9",
        10 => "a",
        11 => "b",
        12 => "c",
        13 => "d",
        14 => "e",
        _ => "f",
    }
}

/// Appends the text.
pub fn push_text(out: &mut String, t: &str)
    ensures
        final(out)@ == old(out)@ + t@,
{
    out.append(t);
}

/// Appends the decimal digits of `n`.
pub fn push_decimal(out: &mut String, n: u64)
    ensures
        final(out)@ == old(out)@ + decimal(n as nat),
    decreases n,
{
    if n >= 10 {
        push_decimal(out, n / 10);
    }
    out.append(digit_str(n % 10));
    proof {
        if n >= 10 {
            assert(out@ =~= old(out)@ + decimal(n as nat));
        } else {
            assert(out@ =~= old(out)@ + decimal(n as nat));
        }
    }
}

/// Appends the decimal text of `v`, with a `-` when it is negative.
pub fn push_signed(out: &mut String, v: i64)
    ensures
        final(out)@ == old(out)@ + signed_decimal(v as int),
{
    if v < 0 {
        proof {
            reveal_strlit("-");
        }
        out.append("-");
        let m: u64 = (0i128 - v as i128) as u64;
        push_decimal(out, m);
        assert(out@ =~= old(out)@ + signed_decimal(v as int));
    } else {
        push_decimal(out, v as u64);
    }
}

/// Appends the last `k` hexadecimal digits of `n`, zeros in front.
pub fn push_hex(out: &mut String, n: u64, k: u32)
    ensures
        final(out)@ == old(out)@ + hex_digits(n as nat, k as nat),
    decreases k,
{
    if k > 0 {
        push_hex(out, n / 16, k - 1);
        out.append(digit_str(n % 16));
        assert(out@ =~= old(out)@ + hex_digits(n as nat, k as nat));
    } else {
        assert(out@ =~= old(out)@ + hex_digits(n as nat, k as nat));
    }
}

/// The value of a digit character in bases up to 36: `0`-`9`, then `a`-`z`
/// or `A`-`Z` from 10; 36 for any other character.
pub open spec fn digit_of(c: char) -> int {
    let u = c as u32;
    if 48 <= u <= 57 {
        u - 48
    } else if 97 <= u <= 122 {
        u - 87
    } else if 65 <= u <= 90 {
        u - 55
    } else {
        36
    }
}

/// Every character of `s` is a digit of the base.
pub open spec fn all_radix_digits(s: Seq<char>, radix: int) -> bool {
    forall|i: int| 0 <= i < s.len() ==> digit_of(#[trigger] s[i]) < radix
}

/// The number that the digits of `s` write in the base.
pub open spec fn radix_value(s: Seq<char>, radix: int) -> int
    decreases s.len(),
{
    if s.len() == 0 {
        0
    } else {
        radix_value(s.drop_last(), radix) * radix + digit_of(s.last())
    }
}

/// An unsigned 64-bit number as `u64::from_str_radix` reads it: an optional
/// `+`, then at least one digit of the base, and the value in range.
pub open spec fn parse_u64_spec(s: Seq<char>, radix: int) -> Option<u64> {
    let body = if s.len() > 0 && s[0] == '+' { s.drop_first() } else { s };
    if body.len() == 0 || !all_radix_digits(body, radix) || radix_value(body, radix) > u64::MAX {
        None
    } else {
        Some(radix_value(body, radix) as u64)
    }
}

/// What a raw identifier value in text gives: hexadecimal after `0x`,
/// decimal otherwise.
pub open spec fn raw_value_from_text(s: Seq<char>) -> core::result::Result<u64, Seq<char>> {
    if s.len() >= 2 && s[0] == '0' && s[1] == 'x' {
        match parse_u64_spec(s.subrange(2, s.len() as int), 16) {
            Some(v) => Ok(v),
            None => Err("Invalid hex value"@),
        }
    } else {
        match parse_u64_spec(s, 10) {
            Some(v) => Ok(v),
            None => Err("Invalid decimal value"@),
        }
    }
}

/// The value of a digit character, 36 for a character that is no digit.
fn digit_value(c: char) -> (r: u32)
    ensures
        r == digit_of(c),
{
    let u = c as u32;
    if 48 <= u && u <= 57 {
        u - 48
    } else if 97 <= u && u <= 122 {
        u - 87
    } else if 65 <= u && u <= 90 {
        u - 55
    } else {
        36
    }
}

/// The value of the digits `s[first..]` in the base, when they are all digits
/// of the base and the value fits 64 bits.
fn radix_digits_value(s: &Vec<char>, first: usize, radix: u32) -> (r: Option<u64>)
    requires
        first <= s@.len(),
        2 <= radix <= 36,
    ensures
        r matches Some(v) ==> all_radix_digits(s@.subrange(first as int, s@.len() as int), radix as int) && v
            == radix_value(s@.subrange(first as int, s@.len() as int), radix as int),
        r is None ==> !all_radix_digits(s@.subrange(first as int, s@.len() as int), radix as int) || radix_value(
            s@.subrange(first as int, s@.len() as int),
            radix as int,
        ) > u64::MAX,
{
    let n = s.len();
    let ghost body = s@.subrange(first as int, n as int);
    let mut acc: u128 = 0;
    let mut over = false;
    let mut i: usize = first;
    assert(body.take(0) =~= Seq::<char>::empty());
    while i < n
        invariant
            first <= i <= n,
            n == s@.len(),
            2 <= radix <= 36,
            body == s@.subrange(first as int, n as int),
            all_radix_digits(body.take(i - first), radix as int),
            !over ==> acc == radix_value(body.take(i - first), radix as int) && acc <= u64::MAX,
            over ==> radix_value(body.take(i - first), radix as int) > u64::MAX,
        decreases n - i,
    {
        let c = s[i];
        let d = digit_value(c);
        if d >= radix {
            assert(digit_of(body[i - first]) >= radix);
            return None;
        }
        let ghost k = i - first;
        assert(body.take(k + 1).drop_last() =~= body.take(k));
        assert(body.take(k + 1).last() == c);
        if !over {
            assert(acc * radix + d <= 0xFFFF_FFFF_FFFF_FFFF * 36 + 35) by (nonlinear_arith)
                requires acc <= 0xFFFF_FFFF_FFFF_FFFFu128, radix <= 36, d < radix;
            acc = acc * (radix as u128) + (d as u128);
            if acc > 0xFFFF_FFFF_FFFF_FFFF {
                over = true;
            }
        } else {
            assert(radix_value(body.take(k), radix as int) * radix >= radix_value(body.take(k), radix as int)) by (nonlinear_arith)
                requires radix_value(body.take(k), radix as int) > 0, radix >= 2;
        }
        assert forall|j: int| 0 <= j < body.take(k + 1).len() implies digit_of(#[trigger] body.take(k + 1)[j]) < radix by {
            if j < k {
                assert(body.take(k + 1)[j] == body.take(k)[j]);
            }
        }
        i = i + 1;
    }
    assert(body.take(n - first) =~= body);
    if over {
        None
    } else {
        Some(acc as u64)
    }
}

/// The characters `s[start..]` read as an unsigned 64-bit number in the base,
/// as `u64::from_str_radix` reads them.
pub fn parse_u64_from(s: &Vec<char>, start: usize, radix: u32) -> (r: Option<u64>)
    requires
        start <= s@.len(),
        2 <= radix <= 36,
    ensures
        r == parse_u64_spec(s@.subrange(start as int, s@.len() as int), radix as int),
{
    let n = s.len();
    let ghost whole = s@.subrange(start as int, n as int);
    let plus = start < n && s[start] == '+';
    let first: usize = if plus { start + 1 } else { start };
    assert(s@.subrange(first as int, n as int) =~= (if whole.len() > 0 && whole[0] == '+' {
        whole.drop_first()
    } else {
        whole
    }));
    if first == n {
        return None;
    }
    radix_digits_value(s, first, radix)
}

/// Reads a raw identifier value: hexadecimal digits after `0x`, decimal
/// digits otherwise, each with an optional `+`.
pub fn parse_raw_value(s: &str) -> (r: Result<u64>)
    ensures
        raw_value_from_text(s@) matches Ok(v) ==> r == Ok::<u64, Error>(v),
        raw_value_from_text(s@) matches Err(m) ==> (r matches Err(Error::OutOfRange(e)) && e@ == m),
{
    let chars = crate::coord_text::chars_of(s);
    if chars.len() >= 2 && chars[0] == '0' && chars[1] == 'x' {
        match parse_u64_from(&chars, 2, 16) {
            Some(v) => Ok(v),
            None => Err(Error::OutOfRange("Invalid hex value".to_owned())),
        }
    } else {
        assert(chars@.subrange(0, chars@.len() as int) =~= chars@);
        match parse_u64_from(&chars, 0, 10) {
            Some(v) => Ok(v),
            None => Err(Error::OutOfRange("Invalid decimal value".to_owned())),
        }
    }
}

/// The text `prefix`, the number in decimal, then `suffix`.
pub fn numbered(prefix: &str, n: i64, suffix: &str) -> (s: String)
    ensures
        s@ == prefix@ + signed_decimal(n as int) + suffix@,
{
    let mut s = String::new();
    push_text(&mut s, prefix);
    push_signed(&mut s, n);
    push_text(&mut s, suffix);
    assert(s@ =~= prefix@ + signed_decimal(n as int) + suffix@);
    s
}

/// The text `prefix`, the first number, `mid`, the second number, then
/// `suffix`, each number in decimal.
pub fn numbered2(prefix: &str, n1: i64, mid: &str, n2: i64, suffix: &str) -> (s: String)
    ensures
        s@ == prefix@ + signed_decimal(n1 as int) + mid@ + signed_decimal(n2 as int) + suffix@,
{
    let mut s = String::new();
    push_text(&mut s, prefix);
    push_signed(&mut s, n1);
    push_text(&mut s, mid);
    push_signed(&mut s, n2);
    push_text(&mut s, suffix);
    assert(s@ =~= prefix@ + signed_decimal(n1 as int) + mid@ + signed_decimal(n2 as int) + suffix@);
    s
}

} // verus!
