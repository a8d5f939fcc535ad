//! Coordinates written as text, `x,y,z`: three decimal integers separated by
//! commas, each with optional white space around it.

use vstd::prelude::*;

verus! {

broadcast use vstd::string::group_string_axioms;

/// Unicode white space: the characters with the `White_Space` property,
/// which `char::is_whitespace` tests for.
pub open spec fn is_white(c: char) -> bool {
    let u = c as u32;
    (0x09 <= u <= 0x0D) || u == 0x20 || u == 0x85 || u == 0xA0 || u == 0x1680 || (0x2000 <= u <= 0x200A)
        || u == 0x2028 || u == 0x2029 || u == 0x202F || u == 0x205F || u == 0x3000
}

/// `s` without its leading white space.
pub open spec fn trim_start(s: Seq<char>) -> Seq<char>
    decreases s.len(),
{
    if s.len() > 0 && is_white(s[0]) {
        trim_start(s.drop_first())
    } else {
        s
    }
}

/// `s` without its trailing white space.
pub open spec fn trim_end(s: Seq<char>) -> Seq<char>
    decreases s.len(),
{
    if s.len() > 0 && is_white(s.last()) {
        trim_end(s.drop_last())
    } else {
        s
    }
}

/// `s` without white space at either end.
pub open spec fn trim(s: Seq<char>) -> Seq<char> {
    trim_end(trim_start(s))
}

/// The pieces of `s` between commas, in order; there is always at least one.
pub open spec fn split_commas(s: Seq<char>) -> Seq<Seq<char>>
    decreases s.len(),
{
    if s.len() == 0 {
        seq![Seq::<char>::empty()]
    } else {
        let rest = split_commas(s.drop_last());
        if s.last() == ',' {
            rest.push(Seq::<char>::empty())
        } else {
            rest.update(rest.len() - 1, rest.last().push(s.last()))
        }
    }
}

/// A decimal digit `0`-`9`.
pub open spec fn is_digit(c: char) -> bool {
    48 <= (c as u32) <= 57
}

/// Every character of `s` is a decimal digit.
pub open spec fn all_digits(s: Seq<char>) -> bool {
    forall|i: int| 0 <= i < s.len() ==> is_digit(#[trigger] s[i])
}

/// The number that the decimal digits of `s` write.
pub open spec fn digits_value(s: Seq<char>) -> int
    decreases s.len(),
{
    if s.len() == 0 {
        0
    } else {
        digits_value(s.drop_last()) * 10 + ((s.last() as u32) - 48)
    }
}

/// A 32-bit integer in decimal as `str::parse::<i32>` reads it: an optional
/// `+` or `-`, then at least one digit, and the value in range.
pub open spec fn parse_i32_spec(s: Seq<char>) -> Option<i32> {
    let signed = s.len() > 0 && (s[0] == '+' || s[0] == '-');
    let body = if signed { s.drop_first() } else { s };
    let v = if s.len() > 0 && s[0] == '-' { -digits_value(body) } else { digits_value(body) };
    if body.len() == 0 || !all_digits(body) || v < i32::MIN || v > i32::MAX {
        None
    } else {
        Some(v as i32)
    }
}

/// What coordinate text gives: three integers, or the message of the first
/// fault (the number of pieces, then x, y and z in turn).
pub open spec fn coord_from_text(s: Seq<char>) -> Result<(i32, i32, i32), Seq<char>> {
    let parts = split_commas(s);
    if parts.len() != 3 {
        Err("Coordinate must be in format x,y,z"@)
    } else {
        match parse_i32_spec(trim(parts[0])) {
            None => Err("Invalid x coordinate"@),
            Some(x) => match parse_i32_spec(trim(parts[1])) {
                None => Err("Invalid y coordinate"@),
                Some(y) => match parse_i32_spec(trim(parts[2])) {
                    None => Err("Invalid z coordinate"@),
                    Some(z) => Ok((x, y, z)),
                },
            },
        }
    }
}

/// The characters of a string, in order.
pub fn chars_of(s: &str) -> (r: Vec<char>)
    ensures
        r@ == s@,
{
    let mut out: Vec<char> = Vec::new();
    for c in it: s.chars()
        invariant
            it.seq() == s@,
            out@ == it.seq().take(it.index() as int),
    {
        assert(it.seq().take(it.index() as int + 1) == it.seq().take(it.index() as int).push(c));
        out.push(c);
    }
    assert(s@.take(s@.len() as int) == s@);
    out
}

/// Whether the character is white space.
pub fn is_white_char(c: char) -> (r: bool)
    ensures
        r == is_white(c),
{
    let u = c as u32;
    (0x09 <= u && u <= 0x0D) || u == 0x20 || u == 0x85 || u == 0xA0 || u == 0x1680 || (0x2000 <= u && u <= 0x200A)
        || u == 0x2028 || u == 0x2029 || u == 0x202F || u == 0x205F || u == 0x3000
}

/// `s` without white space at either end.
pub fn trimmed(s: &Vec<char>) -> (r: Vec<char>)
    ensures
        r@ == trim(s@),
{
    let n = s.len();
    let mut lo: usize = 0;
    assert(s@.subrange(0, n as int) =~= s@);
    while lo < n && is_white_char(s[lo])
        invariant
            lo <= n,
            n == s@.len(),
            trim_start(s@) == trim_start(s@.subrange(lo as int, n as int)),
        decreases n - lo,
    {
        assert(s@.subrange(lo as int, n as int).drop_first() =~= s@.subrange(lo + 1, n as int));
        lo = lo + 1;
    }
    assert(trim_start(s@) == s@.subrange(lo as int, n as int));
    let mut hi: usize = n;
    while hi > lo && is_white_char(s[hi - 1])
        invariant
            lo <= hi <= n,
            n == s@.len(),
            trim(s@) == trim_end(s@.subrange(lo as int, hi as int)),
        decreases hi - lo,
    {
        assert(s@.subrange(lo as int, hi as int).drop_last() =~= s@.subrange(lo as int, hi - 1));
        hi = hi - 1;
    }
    assert(trim(s@) == s@.subrange(lo as int, hi as int));
    let mut out: Vec<char> = Vec::new();
    let mut k: usize = lo;
    while k < hi
        invariant
            lo <= k <= hi <= n,
            n == s@.len(),
            out@ == s@.subrange(lo as int, k as int),
        decreases hi - k,
    {
        assert(s@.subrange(lo as int, k + 1) == s@.subrange(lo as int, k as int).push(s@[k as int]));
        out.push(s[k]);
        k = k + 1;
    }
    out
}

/// The pieces of `s` between commas, in order.
pub fn split_at_commas(s: &Vec<char>) -> (r: Vec<Vec<char>>)
    ensures
        r@.len() == split_commas(s@).len(),
        forall|j: int| 0 <= j < r@.len() ==> (#[trigger] r@[j])@ == split_commas(s@)[j],
{
    let mut done: Vec<Vec<char>> = Vec::new();
    let mut cur: Vec<char> = Vec::new();
    let mut i: usize = 0;
    assert(s@.take(0) =~= Seq::<char>::empty());
    while i < s.len()
        invariant
            i <= s@.len(),
            done@.len() + 1 == split_commas(s@.take(i as int)).len(),
            forall|j: int| 0 <= j < done@.len() ==> (#[trigger] done@[j])@ == split_commas(s@.take(i as int))[j],
            cur@ == split_commas(s@.take(i as int)).last(),
        decreases s@.len() - i,
    {
        let c = s[i];
        let ghost before = split_commas(s@.take(i as int));
        assert(s@.take(i + 1).drop_last() =~= s@.take(i as int));
        assert(s@.take(i + 1).last() == c);
        if c == ',' {
            let ghost old_done = done@;
            done.push(cur);
            cur = Vec::new();
            assert forall|j: int| 0 <= j < done@.len() implies (#[trigger] done@[j])@ == split_commas(
                s@.take(i + 1),
            )[j] by {
                if j < old_done.len() {
                    assert(done@[j] == old_done[j]);
                }
            }
        } else {
            cur.push(c);
        }
        i = i + 1;
    }
    assert(s@.take(s@.len() as int) =~= s@);
    let ghost old_done = done@;
    done.push(cur);
    assert forall|j: int| 0 <= j < done@.len() implies (#[trigger] done@[j])@ == split_commas(s@)[j] by {
        if j < old_done.len() {
            assert(done@[j] == old_done[j]);
        }
    }
    done
}

/// The value of the digits `s[start..]`, when they are all digits and the
/// value is at most 2^31.
fn digits_upto_2_31(s: &Vec<char>, start: usize) -> (r: Option<u64>)
    requires
        start <= s@.len(),
    ensures
        r matches Some(v) ==> all_digits(s@.subrange(start as int, s@.len() as int)) && v == digits_value(
            s@.subrange(start as int, s@.len() as int),
        ) && v <= 0x8000_0000,
        r is None ==> !all_digits(s@.subrange(start as int, s@.len() as int)) || digits_value(
            s@.subrange(start as int, s@.len() as int),
        ) > 0x8000_0000,
{
    let n = s.len();
    let ghost body = s@.subrange(start as int, n as int);
    let mut acc: u64 = 0;
    let mut over = false;
    let mut i: usize = start;
    assert(body.take(0) =~= Seq::<char>::empty());
    while i < n
        invariant
            start <= i <= n,
            n == s@.len(),
            body == s@.subrange(start as int, n as int),
            all_digits(body.take(i - start)),
            !over ==> acc == digits_value(body.take(i - start)) && acc <= 0x8000_0000,
            over ==> digits_value(body.take(i - start)) > 0x8000_0000,
        decreases n - i,
    {
        let c = s[i];
        let d = c as u32;
        if !(48 <= d && d <= 57) {
            assert(!is_digit(body[i - start]));
            return None;
        }
        let ghost k = i - start;
        assert(body.take(k + 1).drop_last() =~= body.take(k));
        assert(body.take(k + 1).last() == c);
        if !over {
            acc = acc * 10 + (d - 48) as u64;
            if acc > 0x8000_0000 {
                over = true;
            }
        }
        assert forall|j: int| 0 <= j < body.take(k + 1).len() implies is_digit(#[trigger] body.take(k + 1)[j]) by {
            if j < k {
                assert(body.take(k + 1)[j] == body.take(k)[j]);
            }
        }
        i = i + 1;
    }
    assert(body.take(n - start) =~= body);
    if over {
        None
    } else {
        Some(acc)
    }
}

/// A 32-bit integer written in decimal, as `str::parse::<i32>` reads it.
pub fn parse_i32(s: &Vec<char>) -> (r: Option<i32>)
    ensures
        r == parse_i32_spec(s@),
{
    let n = s.len();
    if n == 0 {
        return None;
    }
    let signed = s[0] == '+' || s[0] == '-';
    let neg = s[0] == '-';
    let start: usize = if signed { 1 } else { 0 };
    assert((if signed { s@.drop_first() } else { s@ }) =~= s@.subrange(start as int, n as int));
    if start == n {
        return None;
    }
    let acc = match digits_upto_2_31(s, start) {
        Some(v) => v,
        None => {
            return None;
        },
    };
    let v: i64 = if neg { -(acc as i64) } else { acc as i64 };
    if v < -2147483648 || v > 2147483647 {
        return None;
    }
    Some(v as i32)
}

/// Reads `x,y,z`: three decimal integers separated by commas, white space
/// allowed around each. The error names the first fault found.
pub fn parse_coord(s: &str) -> (r: Result<(i32, i32, i32), String>)
    ensures
        coord_from_text(s@) matches Ok(c) ==> r == Ok::<(i32, i32, i32), String>(c),
        coord_from_text(s@) matches Err(m) ==> (r matches Err(e) && e@ == m),
{
    let chars = chars_of(s);
    let parts = split_at_commas(&chars);
    if parts.len() != 3 {
        return Err("Coordinate must be in format x,y,z".to_owned());
    }
    assert(parts@[0]@ == split_commas(s@)[0]);
    assert(parts@[1]@ == split_commas(s@)[1]);
    assert(parts@[2]@ == split_commas(s@)[2]);
    let x = match parse_i32(&trimmed(&parts[0])) {
        Some(v) => v,
        None => {
            return Err("Invalid x coordinate".to_owned());
        },
    };
    let y = match parse_i32(&trimmed(&parts[1])) {
        Some(v) => v,
        None => {
            return Err("Invalid y coordinate".to_owned());
        },
    };
    let z = match parse_i32(&trimmed(&parts[2])) {
        Some(v) => v,
        None => {
            return Err("Invalid z coordinate".to_owned());
        },
    };
    Ok((x, y, z))
}

} // verus!
