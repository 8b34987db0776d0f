//! Collectors: from readings of the machine to the values that are published.

use crate::number::{parse_u64, u64_written};
use crate::text::texts;
use vstd::prelude::*;

pub mod cpu;
pub mod disk;
pub mod mem;
pub mod net;
pub mod platform;
pub mod process;
pub mod threads;

verus! {

/// `a + b`, at most `u64::MAX`.
pub open spec fn sat_add(a: nat, b: nat) -> nat {
    if a + b > u64::MAX {
        u64::MAX as nat
    } else {
        a + b
    }
}

/// `a * b`, at most `u64::MAX`.
pub open spec fn sat_mul(a: nat, b: nat) -> nat {
    if a * b > u64::MAX {
        u64::MAX as nat
    } else {
        a * b
    }
}

/// `a - b`, at least 0.
pub open spec fn sat_sub(a: nat, b: nat) -> nat {
    if a < b {
        0
    } else {
        (a - b) as nat
    }
}

/// Saturating product.
pub fn saturating_product(a: u64, b: u64) -> (r: u64)
    ensures
        r == sat_mul(a as nat, b as nat),
{
    match a.checked_mul(b) {
        Some(p) => p,
        None => u64::MAX,
    }
}

/// The number in a column of a row; 0 if it is not one.
pub open spec fn cell(fields: Seq<Seq<char>>, i: int) -> u64 {
    match u64_written(fields[i]) {
        Some(v) => v,
        None => 0,
    }
}

/// Reads the number in a column of a row.
pub fn read_cell(fields: &Vec<String>, i: usize) -> (r: u64)
    requires
        i < fields.len(),
    ensures
        r == cell(texts(fields@), i as int),
{
    assert(texts(fields@)[i as int] == fields@[i as int]@);
    match parse_u64(fields[i].as_str()) {
        Some(v) => v,
        None => 0,
    }
}

/// Nanoseconds in a second.
pub const NANOS_PER_SEC: u64 = 1_000_000_000;

/// `delta` per second over `nanos` nanoseconds, rounded half up; at most
/// `u64::MAX`.
pub open spec fn rate_per_sec(delta: nat, nanos: nat) -> nat
    recommends
        nanos > 0,
{
    let rounded = (2 * delta * NANOS_PER_SEC as nat + nanos) / (2 * nanos);
    if rounded > u64::MAX {
        u64::MAX as nat
    } else {
        rounded
    }
}

/// The rate of a counter that grew by `delta` in `nanos` nanoseconds.
pub fn per_second(delta: u64, nanos: u64) -> (r: u64)
    requires
        nanos > 0,
    ensures
        r == rate_per_sec(delta as nat, nanos as nat),
{
    let twice: u128 = 2 * (nanos as u128);
    let scaled: u128 = (delta as u128) * 2_000_000_000;
    assert(scaled == 2 * delta as nat * NANOS_PER_SEC as nat);
    let rounded: u128 = (scaled + nanos as u128) / twice;
    if rounded > u64::MAX as u128 {
        u64::MAX
    } else {
        rounded as u64
    }
}

/// A counter read one second apart grows by its rate.
pub proof fn law_rate_over_one_second(delta: u64)
    ensures
        rate_per_sec(delta as nat, NANOS_PER_SEC as nat) == delta,
{
    assert((2 * delta as nat * NANOS_PER_SEC as nat + NANOS_PER_SEC as nat) / (2
        * NANOS_PER_SEC as nat) == delta) by (nonlinear_arith)
        requires
            NANOS_PER_SEC == 1_000_000_000,
    ;
}

/// A counter that did not grow has rate zero.
pub proof fn law_no_growth_no_rate(nanos: nat)
    requires
        nanos > 0,
    ensures
        rate_per_sec(0, nanos) == 0,
{
    assert((0 + nanos) / (2 * nanos) == 0) by (nonlinear_arith)
        requires
            nanos > 0,
    ;
}

/// Whether `rate` is `delta` per second over `nanos` nanoseconds, rounded to
/// the nearest whole number, halves up; or the largest number where that
/// exceeds it.
pub open spec fn nearest(rate: u64, delta: int, nanos: int) -> bool {
    ||| 2 * delta * 1_000_000_000 - nanos < 2 * rate * nanos <= 2 * delta * 1_000_000_000 + nanos
    ||| rate == u64::MAX && 2 * rate * nanos <= 2 * delta * 1_000_000_000 + nanos
}

/// A rate is the growth per second, rounded to the nearest whole number.
pub proof fn law_nearest_rate(delta: nat, nanos: nat)
    requires
        nanos > 0,
    ensures
        rate_per_sec(delta, nanos) <= u64::MAX,
        nearest(rate_per_sec(delta, nanos) as u64, delta as int, nanos as int),
{
    let total = 2 * delta * NANOS_PER_SEC as nat + nanos;
    let q = total / (2 * nanos);
    let r = rate_per_sec(delta, nanos) as int;
    let n = nanos as int;
    assert(q * (2 * n) <= total < (q + 1) * (2 * n)) by (nonlinear_arith)
        requires
            q == total / (2 * nanos),
            nanos > 0,
            n == nanos,
    ;
    assert(2 * q * n == q * (2 * n) && (q + 1) * (2 * n) == 2 * q * n + 2 * n) by (nonlinear_arith);
    assert(2 * delta * 1_000_000_000 == 2 * delta * NANOS_PER_SEC as nat);
    assert(r <= q);
    assert(2 * r * n <= 2 * q * n) by (nonlinear_arith)
        requires
            r <= q,
            n > 0,
    ;
}

/// Bytes in a GiB.
pub const GIB: u64 = 0x4000_0000;

/// Hundredths of a GiB, rounded half up.
pub open spec fn gib_hundredths(bytes: nat) -> nat {
    (bytes * 100 + GIB as nat / 2) / (GIB as nat)
}

/// `x` bytes in hundredths of a GiB, rounded half up.
pub fn bytes_to_gib(x: u64) -> (r: u64)
    ensures
        r == gib_hundredths(x as nat),
{
    let scaled: u128 = (x as u128 * 100 + 0x2000_0000) / 0x4000_0000;
    scaled as u64
}

/// More bytes are not shown as less.
pub proof fn lemma_gib_order(a: nat, b: nat)
    requires
        a <= b,
    ensures
        gib_hundredths(a) <= gib_hundredths(b),
{
}

/// Bytes are shown in hundredths of a GiB of 2^30 bytes, rounded to the nearest,
/// halves up.
pub proof fn law_nearest_gib(bytes: nat)
    ensures
        200 * bytes - 0x4000_0000 < 2 * gib_hundredths(bytes) * 0x4000_0000 <= 200 * bytes
            + 0x4000_0000,
{
}

/// Saturating arithmetic is ordinary arithmetic where the result fits, and
/// else stops at the bound.
pub proof fn law_saturation(a: u64, b: u64)
    ensures
        a + b <= u64::MAX ==> sat_add(a as nat, b as nat) == a + b,
        a + b > u64::MAX ==> sat_add(a as nat, b as nat) == u64::MAX,
        a * b <= u64::MAX ==> sat_mul(a as nat, b as nat) == a * b,
        a * b > u64::MAX ==> sat_mul(a as nat, b as nat) == u64::MAX,
        a >= b ==> sat_sub(a as nat, b as nat) == a - b,
        a <= b ==> sat_sub(a as nat, b as nat) == 0,
{
}

/// What stands in a column is the number that is written there, and nothing
/// where no number is.
pub proof fn law_cells(fields: Seq<Seq<char>>, i: int)
    ensures
        u64_written(fields[i]) matches Some(v) ==> cell(fields, i) == v,
        u64_written(fields[i]) is None ==> cell(fields, i) == 0,
{
}

} // verus!
