use vstd::prelude::*;

verus! {

/// A 64-bit event counter advanced by one, wrapping at `u64::MAX` like an
/// atomic `fetch_add(1)`.
pub open spec fn bumped(x: u64) -> u64 {
    if x == u64::MAX {
        0
    } else {
        (x + 1) as u64
    }
}

/// A 64-bit counter advanced by `n`, wrapping modulo 2^64.
pub open spec fn advanced(x: u64, n: u64) -> u64 {
    if x + n > u64::MAX {
        (x + n - u64::MAX - 1) as u64
    } else {
        (x + n) as u64
    }
}

/// Advance a counter by one (wrapping).
pub fn bump(x: u64) -> (r: u64)
    ensures
        r == bumped(x),
{
    if x == u64::MAX {
        0
    } else {
        x + 1
    }
}

/// Advance a counter by `n` (wrapping).
pub fn advance(x: u64, n: u64) -> (r: u64)
    ensures
        r == advanced(x, n),
{
    if x > u64::MAX - n {
        n - (u64::MAX - x) - 1
    } else {
        x + n
    }
}

} // verus!
