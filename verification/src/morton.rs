//! Morton (Z-order) encoding: the bits of three 16-bit coordinates are
//! interleaved into a 48-bit code, x in bit 3i, y in bit 3i+1, z in bit 3i+2.

use vstd::prelude::*;

verus! {

/// `2^n`.
pub open spec fn two_pow(n: nat) -> nat
    decreases n,
{
    if n == 0 { 1 } else { 2 * two_pow((n - 1) as nat) }
}

/// The 3-bit digit made of the lowest bit of each coordinate.
pub open spec fn octant(x: nat, y: nat, z: nat) -> nat {
    x % 2 + 2 * (y % 2) + 4 * (z % 2)
}

/// Interleaving of the low `n` bits of `x`, `y`, `z`.
pub open spec fn morton_spec(x: nat, y: nat, z: nat, n: nat) -> nat
    decreases n,
{
    if n == 0 {
        0
    } else {
        morton_spec(x / 2, y / 2, z / 2, (n - 1) as nat) * 8 + octant(x, y, z)
    }
}

/// The three coordinates spread over the low `n` octal digits of `m`.
pub open spec fn deinterleave(m: nat, n: nat) -> (nat, nat, nat)
    decreases n,
{
    if n == 0 {
        (0, 0, 0)
    } else {
        let r = deinterleave(m / 8, (n - 1) as nat);
        (2 * r.0 + m % 2, 2 * r.1 + (m / 2) % 2, 2 * r.2 + (m / 4) % 2)
    }
}

/// `8^n`.
pub open spec fn eight_pow(n: nat) -> nat
    decreases n,
{
    if n == 0 { 1 } else { 8 * eight_pow((n - 1) as nat) }
}

pub proof fn lemma_eight_pow_is_two_pow(n: nat)
    ensures
        eight_pow(n) == two_pow(3 * n),
    decreases n,
{
    if n > 0 {
        lemma_eight_pow_is_two_pow((n - 1) as nat);
        assert(two_pow(3 * n) == 8 * two_pow(3 * (n - 1) as nat)) by {
            reveal_with_fuel(two_pow, 4);
        }
    }
}

pub proof fn lemma_two_pow_16()
    ensures
        two_pow(16) == 65536,
        two_pow(48) == 0x1_0000_0000_0000,
        eight_pow(16) == 0x1_0000_0000_0000,
{
    reveal_with_fuel(two_pow, 17);
    reveal_with_fuel(eight_pow, 17);
    assert(two_pow(16) == 65536);
    assert(eight_pow(16) == 0x1_0000_0000_0000);
    lemma_eight_pow_is_two_pow(16);
}

/// The interleaved code has at most `3n` bits.
pub proof fn lemma_morton_bound(x: nat, y: nat, z: nat, n: nat)
    ensures
        morton_spec(x, y, z, n) < eight_pow(n),
    decreases n,
{
    if n > 0 {
        lemma_morton_bound(x / 2, y / 2, z / 2, (n - 1) as nat);
    }
}

/// Each recovered coordinate has at most `n` bits.
pub proof fn lemma_deinterleave_bound(m: nat, n: nat)
    ensures
        deinterleave(m, n).0 < two_pow(n),
        deinterleave(m, n).1 < two_pow(n),
        deinterleave(m, n).2 < two_pow(n),
    decreases n,
{
    if n > 0 {
        lemma_deinterleave_bound(m / 8, (n - 1) as nat);
    }
}

/// Splitting the coordinates back out of an interleaved code gives the
/// coordinates reduced to their low `n` bits.
pub proof fn lemma_deinterleave_morton(x: nat, y: nat, z: nat, n: nat)
    ensures
        deinterleave(morton_spec(x, y, z, n), n) == (x % two_pow(n), y % two_pow(n), z % two_pow(n)),
    decreases n,
{
    if n > 0 {
        let n1 = (n - 1) as nat;
        lemma_deinterleave_morton(x / 2, y / 2, z / 2, n1);
        let m = morton_spec(x, y, z, n);
        let d = octant(x, y, z);
        assert(m / 8 == morton_spec(x / 2, y / 2, z / 2, n1));
        assert(m % 8 == d);
        assert(m % 2 == x % 2);
        assert((m / 2) % 2 == y % 2);
        assert((m / 4) % 2 == z % 2);
        let p = two_pow(n1);
        assert(p > 0) by { lemma_two_pow_pos(n1); }
        lemma_mod_double(x, p);
        lemma_mod_double(y, p);
        lemma_mod_double(z, p);
    }
}

pub proof fn lemma_two_pow_pos(n: nat)
    ensures
        two_pow(n) > 0,
    decreases n,
{
    if n > 0 {
        lemma_two_pow_pos((n - 1) as nat);
    }
}

proof fn lemma_mod_double(x: nat, p: nat)
    requires
        p > 0,
    ensures
        2 * ((x / 2) % p) + x % 2 == x % (2 * p),
{
    let q = x / 2;
    let r = x % 2;
    assert(x == 2 * q + r);
    let a = q / p;
    let b = q % p;
    assert(q == a * p + b) by (nonlinear_arith)
        requires a == q / p, b == q % p, p > 0;
    assert(x == a * (2 * p) + (2 * b + r)) by (nonlinear_arith)
        requires x == 2 * q + r, q == a * p + b;
    assert(0 <= 2 * b + r < 2 * p) by (nonlinear_arith)
        requires 0 <= b < p, 0 <= r < 2;
    vstd::arithmetic::div_mod::lemma_fundamental_div_mod_converse(
        x as int, (2 * p) as int, a as int, (2 * b + r) as int);
}

/// Interleaving the split-out coordinates of a code gives back the code's
/// low `3n` bits.
pub proof fn lemma_morton_deinterleave(m: nat, n: nat)
    ensures
        morton_spec(deinterleave(m, n).0, deinterleave(m, n).1, deinterleave(m, n).2, n)
            == m % eight_pow(n),
    decreases n,
{
    if n > 0 {
        let n1 = (n - 1) as nat;
        lemma_morton_deinterleave(m / 8, n1);
        let r = deinterleave(m / 8, n1);
        let d = deinterleave(m, n);
        assert(d.0 / 2 == r.0 && d.1 / 2 == r.1 && d.2 / 2 == r.2);
        assert(octant(d.0, d.1, d.2) == m % 8);
        let p = eight_pow(n1);
        assert(p > 0) by { lemma_eight_pow_pos(n1); }
        lemma_mod_eight(m, p);
    }
}

pub proof fn lemma_eight_pow_pos(n: nat)
    ensures
        eight_pow(n) > 0,
    decreases n,
{
    if n > 0 {
        lemma_eight_pow_pos((n - 1) as nat);
    }
}

/// Splitting off the lowest octal digit commutes with reducing modulo `8p`.
pub proof fn lemma_mod_eight(m: nat, p: nat)
    requires
        p > 0,
    ensures
        ((m / 8) % p) * 8 + m % 8 == m % (8 * p),
{
    let q = m / 8;
    let r = m % 8;
    let a = q / p;
    let b = q % p;
    assert(q == a * p + b) by (nonlinear_arith)
        requires a == q / p, b == q % p, p > 0;
    assert(m == a * (8 * p) + (8 * b + r)) by (nonlinear_arith)
        requires m == 8 * q + r, q == a * p + b;
    assert(0 <= 8 * b + r < 8 * p) by (nonlinear_arith)
        requires 0 <= b < p, 0 <= r < 8;
    vstd::arithmetic::div_mod::lemma_fundamental_div_mod_converse(
        m as int, (8 * p) as int, a as int, (8 * b + r) as int);
}

/// Decoding an encoded point gives the point back.
pub proof fn lemma_morton_roundtrip(x: u16, y: u16, z: u16)
    ensures
        deinterleave(morton_spec(x as nat, y as nat, z as nat, 16), 16) == (
            x as nat,
            y as nat,
            z as nat,
        ),
{
    lemma_two_pow_16();
    lemma_deinterleave_morton(x as nat, y as nat, z as nat, 16);
}

/// Encoding a decoded code gives back its low 48 bits.
pub proof fn lemma_morton_code_roundtrip(m: u64)
    ensures
        morton_spec(deinterleave(m as nat, 16).0, deinterleave(m as nat, 16).1, deinterleave(
            m as nat,
            16,
        ).2, 16) == (m & 0xFFFF_FFFF_FFFF) as nat,
{
    lemma_two_pow_16();
    lemma_morton_deinterleave(m as nat, 16);
    assert(m & 0xFFFF_FFFF_FFFF == m % 0x1_0000_0000_0000) by (bit_vector);
}

proof fn lemma_shift_step(v: u64, s: u64)
    requires
        3 <= s <= 63,
    ensures
        (v >> (s - 3)) / 8 == v >> s,
        (v >> (s - 3)) % 8 == (v >> (s - 3)) & 7,
{
    shift_facts(v, s, (s - 3) as u64);
}

/// Dropping three more low bits divides by eight; the dropped bits are the remainder.
pub proof fn shift_facts(v: u64, s: u64, t: u64)
    by (bit_vector)
    requires
        3 <= s <= 63,
        t == s - 3,
    ensures
        (v >> t) / 8 == v >> s,
        (v >> t) % 8 == (v >> t) & 7,
{
}

proof fn lemma_bit_step(v: u32, i: u32)
    requires
        1 <= i <= 16,
    ensures
        (v >> (i - 1)) / 2 == v >> i,
        (v >> (i - 1)) % 2 == (v >> (i - 1)) & 1,
{
    bit_facts(v, i, (i - 1) as u32);
}

/// Dropping one more low bit halves the value; the dropped bit is the remainder.
pub proof fn bit_facts(v: u32, i: u32, t: u32)
    by (bit_vector)
    requires
        1 <= i <= 16,
        t == i - 1,
    ensures
        (v >> t) / 2 == v >> i,
        (v >> t) % 2 == (v >> t) & 1,
{
}

proof fn lemma_u16_shift_16(v: u32)
    requires
        v < 65536,
    ensures
        v >> 16u32 == 0,
{
    assert(v >> 16u32 == 0) by (bit_vector)
        requires v < 65536;
}

/// Morton-encodes three 16-bit coordinates into a 48-bit code.
pub fn morton_encode(x: u16, y: u16, z: u16) -> (r: u64)
    ensures
        r as nat == morton_spec(x as nat, y as nat, z as nat, 16),
        r < 0x1_0000_0000_0000,
{
    morton_encode_lut(x, y, z)
}

/// Morton-decodes the low 48 bits of a code into three 16-bit coordinates.
pub fn morton_decode(morton: u64) -> (r: (u16, u16, u16))
    ensures
        (r.0 as nat, r.1 as nat, r.2 as nat) == deinterleave(morton as nat, 16),
{
    morton_decode_lut(morton)
}

/// Portable Morton encoder, one octal digit per step from the top bit down.
pub fn morton_encode_lut(x: u16, y: u16, z: u16) -> (r: u64)
    ensures
        r as nat == morton_spec(x as nat, y as nat, z as nat, 16),
        r < 0x1_0000_0000_0000,
{
    let (x32, y32, z32) = (x as u32, y as u32, z as u32);
    let mut result: u64 = 0;
    let mut i: u32 = 16;
    proof {
        lemma_u16_shift_16(x32);
        lemma_u16_shift_16(y32);
        lemma_u16_shift_16(z32);
    }
    while i > 0
        invariant
            i <= 16,
            x32 == x as u32,
            y32 == y as u32,
            z32 == z as u32,
            result as nat == morton_spec((x32 >> i) as nat, (y32 >> i) as nat, (z32 >> i) as nat, (16 - i) as nat),
        decreases i,
    {
        proof {
            lemma_bit_step(x32, i);
            lemma_bit_step(y32, i);
            lemma_bit_step(z32, i);
            lemma_morton_bound((x32 >> i) as nat, (y32 >> i) as nat, (z32 >> i) as nat, (16 - i) as nat);
            lemma_eight_pow_is_two_pow((16 - i) as nat);
            lemma_eight_pow_mono((16 - i) as nat, 15);
            lemma_two_pow_16();
            assert(eight_pow(15) == 0x2000_0000_0000) by { reveal_with_fuel(eight_pow, 16); }
        }
        let j = i - 1;
        let xb = ((x32 >> j) & 1) as u64;
        let yb = ((y32 >> j) & 1) as u64;
        let zb = ((z32 >> j) & 1) as u64;
        result = result * 8 + (xb + 2 * yb + 4 * zb);
        i = j;
    }
    proof {
        assert(x32 >> 0u32 == x32 && y32 >> 0u32 == y32 && z32 >> 0u32 == z32) by (bit_vector);
        lemma_morton_bound(x as nat, y as nat, z as nat, 16);
        lemma_two_pow_16();
    }
    result
}

pub proof fn lemma_eight_pow_mono(a: nat, b: nat)
    requires
        a <= b,
    ensures
        eight_pow(a) <= eight_pow(b),
    decreases b,
{
    if a < b {
        lemma_eight_pow_mono(a, (b - 1) as nat);
    }
}

/// Portable Morton decoder, one octal digit per step from the top digit down.
pub fn morton_decode_lut(morton: u64) -> (r: (u16, u16, u16))
    ensures
        (r.0 as nat, r.1 as nat, r.2 as nat) == deinterleave(morton as nat, 16),
{
    let mut x: u32 = 0;
    let mut y: u32 = 0;
    let mut z: u32 = 0;
    let mut i: u64 = 16;
    while i > 0
        invariant
            i <= 16,
            (x as nat, y as nat, z as nat) == deinterleave((morton >> (3 * i)) as nat, (16 - i) as nat),
        decreases i,
    {
        let d = (morton >> (3 * (i - 1))) & 7;
        proof {
            lemma_decode_step(morton, i, x as nat, y as nat, z as nat);
            assert((d & 1) <= 1 && ((d >> 1) & 1) <= 1 && ((d >> 2) & 1) <= 1) by (bit_vector);
            lemma_deinterleave_bound((morton >> (3 * i)) as nat, (16 - i) as nat);
            lemma_two_pow_mono((16 - i) as nat, 15);
            assert(two_pow(15) == 32768) by { reveal_with_fuel(two_pow, 16); }
        }
        x = x * 2 + (d & 1) as u32;
        y = y * 2 + ((d >> 1) & 1) as u32;
        z = z * 2 + ((d >> 2) & 1) as u32;
        i = i - 1;
    }
    proof {
        assert(morton >> 0u64 == morton) by (bit_vector);
        lemma_deinterleave_bound(morton as nat, 16);
        lemma_two_pow_16();
    }
    (x as u16, y as u16, z as u16)
}

proof fn lemma_decode_step(morton: u64, i: u64, x: nat, y: nat, z: nat)
    requires
        1 <= i <= 16,
        (x, y, z) == deinterleave((morton >> (3 * i)) as nat, (16 - i) as nat),
    ensures
        ({
            let d = (morton >> (3 * (i - 1))) & 7;
            ((2 * x + (d & 1)) as nat, (2 * y + ((d >> 1) & 1)) as nat, (2 * z + ((d >> 2) & 1)) as nat) == deinterleave(
                (morton >> (3 * (i - 1))) as nat,
                (17 - i) as nat,
            )
        }),
{
    let s = (3 * i) as u64;
    let t = (3 * (i - 1)) as u64;
    lemma_shift_step(morton, s);
    let m = (morton >> t) as nat;
    let d = (morton >> t) & 7;
    assert(d % 2 == d & 1 && (d / 2) % 2 == (d >> 1) & 1 && (d / 4) % 2 == (d >> 2) & 1)
        by (bit_vector);
    assert(m / 8 == (morton >> s) as nat);
    assert(m % 8 == d);
    assert(m % 2 == d % 2);
    assert((m / 2) % 2 == (d / 2) % 2);
    assert((m / 4) % 2 == (d / 4) % 2);
}

pub proof fn lemma_two_pow_mono(a: nat, b: nat)
    requires
        a <= b,
    ensures
        two_pow(a) <= two_pow(b),
    decreases b,
{
    if a < b {
        lemma_two_pow_mono(a, (b - 1) as nat);
    }
}

} // verus!
