//! Exact wrapping arithmetic on the 64-bit integer elements.  Every tensor
//! operation is specified elementwise in terms of these functions, so the
//! whole library is total: no element operation can fail.

use vstd::prelude::*;

verus! {

/// Wrapping addition, the semantics of `i64::wrapping_add`.
pub open spec fn wadd(a: i64, b: i64) -> i64 {
    vstd::wrapping::i64_specs::wrapping_add(a, b)
}

/// Wrapping subtraction, the semantics of `i64::wrapping_sub`.
pub open spec fn wsub(a: i64, b: i64) -> i64 {
    vstd::wrapping::i64_specs::wrapping_sub(a, b)
}

/// Wrapping multiplication, the semantics of `i64::wrapping_mul`.
pub open spec fn wmul(a: i64, b: i64) -> i64 {
    vstd::wrapping::i64_specs::wrapping_mul(a, b)
}

/// Wrapping negation.
pub open spec fn wneg(a: i64) -> i64 {
    wsub(0, a)
}

/// Wrapping exponentiation with a non-negative integer exponent.
pub open spec fn wpow(a: i64, n: nat) -> i64
    decreases n,
{
    if n == 0 {
        1
    } else {
        wmul(a, wpow(a, (n - 1) as nat))
    }
}

/// Truncating division, the semantics of the `/` operator of `i64`;
/// meaningful when `b != 0` and the quotient is representable.
pub open spec fn tdiv(a: i64, b: i64) -> i64 {
    if a >= 0 {
        ((a as int) / (b as int)) as i64
    } else {
        (-((-(a as int)) / (b as int))) as i64
    }
}

pub fn exec_wneg(a: i64) -> (r: i64)
    ensures
        r == wneg(a),
{
    0i64.wrapping_sub(a)
}

pub fn exec_wpow(a: i64, n: u32) -> (r: i64)
    ensures
        r == wpow(a, n as nat),
{
    let mut r: i64 = 1;
    let mut i: u32 = 0;
    while i < n
        invariant
            i <= n,
            r == wpow(a, i as nat),
        decreases n - i,
    {
        proof {
            lemma_wpow_step(a, i as nat);
        }
        r = a.wrapping_mul(r);
        i = i + 1;
    }
    r
}

/// Unfolding `wpow` from above: one more factor in front.
proof fn lemma_wpow_step(a: i64, n: nat)
    ensures
        wpow(a, n + 1) == wmul(a, wpow(a, n)),
{
}

/// Multiplying by one wraps nowhere.
pub proof fn lemma_wmul_one(a: i64)
    ensures
        wmul(a, 1) == a,
        wmul(1, a) == a,
{
    let m = 0x1_0000_0000_0000_0000int;
    assert(vstd::wrapping::i64_specs::signed_crop(a as int) == a) by {
        if a >= 0 {
            assert(a as int % m == a);
        } else {
            assert(a as int % m == a + m);
        }
    }
}

} // verus!
