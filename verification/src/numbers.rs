//! Arithmetic that stops at the bounds of a type.
use vstd::prelude::*;

verus! {

/// `n`, or the largest `u64` where it is beyond that.
pub open spec fn saturated_u64(n: int) -> u64 {
    if n > u64::MAX {
        u64::MAX
    } else {
        n as u64
    }
}

/// `n`, or the largest `i64` where it is beyond that.
pub open spec fn saturated_i64(n: int) -> i64 {
    if n > i64::MAX {
        i64::MAX
    } else if n < i64::MIN {
        i64::MIN
    } else {
        n as i64
    }
}

/// `n`, raised to `lo` or lowered to `hi`.
pub open spec fn clamped(n: int, lo: int, hi: int) -> int {
    if n < lo {
        lo
    } else if n > hi {
        hi
    } else {
        n
    }
}

pub fn add_saturating_i64(a: i64, b: i64) -> (r: i64)
    ensures
        r == saturated_i64(a + b),
{
    let sum: i128 = a as i128 + b as i128;
    if sum > i64::MAX as i128 {
        i64::MAX
    } else if sum < i64::MIN as i128 {
        i64::MIN
    } else {
        sum as i64
    }
}

/// A count from the database, which stores signed numbers.
pub fn stored_count(n: i64) -> (r: Option<u64>)
    ensures
        match r {
            Some(c) => n >= 0 && c == n,
            None => n < 0,
        },
{
    if n < 0 {
        None
    } else {
        Some(n as u64)
    }
}

/// The sum of counts, at the largest number there is.
pub open spec fn total_of(values: Seq<u64>) -> u64
    decreases values.len(),
{
    if values.len() == 0 {
        0
    } else {
        saturated_u64(total_of(values.drop_last()) + values.last())
    }
}

/// Adds up what was counted workspace by workspace.
pub fn total(values: &Vec<u64>) -> (r: u64)
    ensures
        r == total_of(values@),
{
    let mut sum: u64 = 0;
    let mut i: usize = 0;
    proof {
        assert(values@.take(0) =~= Seq::empty());
    }
    while i < values.len()
        invariant
            i <= values@.len(),
            sum == total_of(values@.take(i as int)),
        decreases values@.len() - i,
    {
        proof {
            assert(values@.take(i + 1).drop_last() =~= values@.take(i as int));
        }
        sum = sum.saturating_add(values[i]);
        i += 1;
    }
    proof {
        assert(values@.take(values@.len() as int) =~= values@);
    }
    sum
}

/// A number that is held within bounds stays as it is where it lies between them, and is the nearer
/// bound where it does not.
pub proof fn lemma_clamped_is_nearest(n: int, lo: int, hi: int, other: int)
    requires
        lo <= other <= hi,
    ensures
        lo <= clamped(n, lo, hi) <= hi,
        lo <= n <= hi ==> clamped(n, lo, hi) == n,
        n < lo ==> n < clamped(n, lo, hi) <= other,
        n > hi ==> other <= clamped(n, lo, hi) < n,
{
}

/// A number that fits is kept, and any other gives the nearest that does.
pub proof fn lemma_saturated_is_nearest(n: int)
    ensures
        0 <= n <= u64::MAX ==> saturated_u64(n) == n,
        n > u64::MAX ==> saturated_u64(n) == u64::MAX,
        i64::MIN <= n <= i64::MAX ==> saturated_i64(n) == n,
        n > i64::MAX ==> saturated_i64(n) == i64::MAX,
        n < i64::MIN ==> saturated_i64(n) == i64::MIN,
{
}

/// Every number counts once in a total, which stops at the largest number there is.
pub proof fn lemma_every_number_counts(values: Seq<u64>, v: u64)
    ensures
        total_of(Seq::<u64>::empty()) == 0,
        total_of(values) + v <= u64::MAX ==> total_of(values.push(v)) == total_of(values) + v,
        total_of(values) + v > u64::MAX ==> total_of(values.push(v)) == u64::MAX,
{
    assert(values.push(v).drop_last() =~= values);
}

} // verus!
