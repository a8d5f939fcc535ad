//! Batch entry points named after processor extensions, branch hints, and a
//! description of the processor's features.

use vstd::prelude::*;
use crate::performance::morton_batch::{batch_morton_decode, batch_morton_encode, morton_codes, morton_points};

verus! {

/// Morton codes of a batch of points; the BMI2 path computes the same codes.
pub fn batch_morton_encode_bmi2(coords: &[(u16, u16, u16)]) -> (r: Vec<u64>)
    ensures
        r@ == morton_codes(coords@),
{
    batch_morton_encode(coords)
}

/// Points of a batch of Morton codes; the BMI2 path computes the same points.
pub fn batch_morton_decode_bmi2(codes: &[u64]) -> (r: Vec<(u16, u16, u16)>)
    ensures
        r@ == morton_points(codes@),
{
    batch_morton_decode(codes)
}

/// Morton codes of a batch of points, four at a time and then the remainder.
pub fn batch_morton_encode_neon(coords: &[(u16, u16, u16)]) -> (r: Vec<u64>)
    ensures
        r@ == morton_codes(coords@),
{
    batch_morton_encode(coords)
}

/// `process` applied to each item, in order.
pub fn batch_with_prefetch<T, F, R>(data: &[T], process: F) -> (r: Vec<R>)
    where
        F: Fn(&T) -> R,
    requires
        forall|i: int| 0 <= i < data@.len() ==> call_requires(process, (&data@[i],)),
    ensures
        r@.len() == data@.len(),
        forall|i: int| 0 <= i < data@.len() ==> call_ensures(process, (&data@[i],), #[trigger] r@[i]),
{
    let mut result: Vec<R> = Vec::with_capacity(data.len());
    let mut i: usize = 0;
    while i < data.len()
        invariant
            i <= data.len(),
            result@.len() == i,
            forall|k: int| 0 <= k < data@.len() ==> call_requires(process, (&data@[k],)),
            forall|k: int| 0 <= k < i ==> call_ensures(process, (&data@[k],), #[trigger] result@[k]),
        decreases data.len() - i,
    {
        let v = process(&data[i]);
        result.push(v);
        i = i + 1;
    }
    result
}

/// Marks a path as rarely taken.
#[inline(always)]
pub fn cold() {
}

/// Hints that `b` is usually true; returns `b`.
#[inline(always)]
pub fn likely(b: bool) -> (r: bool)
    ensures
        r == b,
{
    if !b {
        cold();
    }
    b
}

/// Hints that `b` is usually false; returns `b`.
#[inline(always)]
pub fn unlikely(b: bool) -> (r: bool)
    ensures
        r == b,
{
    if b {
        cold();
    }
    b
}

/// Processor architecture and the extensions the library can use.
pub struct ArchInfo {
    pub arch: &'static str,
    pub has_bmi2: bool,
    pub has_avx2: bool,
    pub has_avx512: bool,
    pub has_neon: bool,
    pub cache_line_size: usize,
}

impl ArchInfo {
    /// The description of an x86-64 processor with the given extensions.
    pub fn x86_64(has_bmi2: bool, has_avx2: bool, has_avx512: bool) -> (r: Self)
        ensures
            r.arch@ == "x86_64"@,
            r.has_bmi2 == has_bmi2,
            r.has_avx2 == has_avx2,
            r.has_avx512 == has_avx512,
            !r.has_neon,
            r.cache_line_size == 64,
    {
        Self { arch: "x86_64", has_bmi2, has_avx2, has_avx512, has_neon: false, cache_line_size: 64 }
    }
}

} // verus!
