//! Machine arithmetic that wraps around, as arithmetic on integers.

use vstd::arithmetic::div_mod::{lemma_fundamental_div_mod, lemma_mod_multiples_vanish};
use vstd::prelude::*;

verus! {

/// 2 to the power of 64: how many 64-bit numbers there are.
pub open spec fn modulus() -> int {
    0x1_0000_0000_0000_0000
}

/// The 64-bit number that differs from `x` by a multiple of 2^64: what
/// 64-bit arithmetic that wraps around makes of `x`.
pub open spec fn wrap(x: int) -> i64 {
    let r: int = x % modulus();
    if r > i64::MAX {
        (r - modulus()) as i64
    } else {
        r as i64
    }
}

/// By how many times 2^64 `wrap(x)` lies above `x`.
pub open spec fn turns(x: int) -> int {
    if x % modulus() > i64::MAX {
        -(x / modulus()) - 1
    } else {
        -(x / modulus())
    }
}

/// `wrap(x)` differs from `x` by a multiple of 2^64.
pub proof fn lemma_wrap_differs(x: int)
    ensures
        wrap(x) == x + modulus() * turns(x),
{
    lemma_fundamental_div_mod(x, modulus());
    assert(modulus() * (-(x / modulus()) - 1) == -(modulus() * (x / modulus())) - modulus())
        by (nonlinear_arith);
    assert(modulus() * (-(x / modulus())) == -(modulus() * (x / modulus())))
        by (nonlinear_arith);
}

/// Numbers that differ by a multiple of 2^64 wrap to the same.
pub proof fn lemma_wrap_shift(x: int, k: int)
    ensures
        wrap(x + modulus() * k) == wrap(x),
{
    lemma_mod_multiples_vanish(k, x, modulus());
    assert(x + modulus() * k == modulus() * k + x);
}

/// A number that fits in 64 bits wraps to itself.
pub proof fn lemma_wrap_fits(x: int)
    requires
        i64::MIN <= x <= i64::MAX,
    ensures
        wrap(x) == x,
{
    if x < 0 {
        lemma_mod_multiples_vanish(1, x, modulus());
        assert(modulus() * 1 + x == x + modulus());
        assert((x + modulus()) % modulus() == x + modulus());
    }
}

/// To wrap a sum, the first term may be wrapped before.
pub proof fn lemma_wrap_add(x: int, y: int)
    ensures
        wrap(wrap(x) + y) == wrap(x + y),
{
    lemma_wrap_differs(x);
    lemma_wrap_shift(x + y, turns(x));
}

/// To wrap a difference, the first term may be wrapped before.
pub proof fn lemma_wrap_sub(x: int, y: int)
    ensures
        wrap(wrap(x) - y) == wrap(x - y),
{
    lemma_wrap_differs(x);
    lemma_wrap_shift(x - y, turns(x));
}

/// To wrap a product, the first factor may be wrapped before.
pub proof fn lemma_wrap_mul(x: int, y: int)
    ensures
        wrap(wrap(x) * y) == wrap(x * y),
{
    lemma_wrap_differs(x);
    let k: int = turns(x);
    assert((x + modulus() * k) * y == x * y + modulus() * (k * y)) by (nonlinear_arith);
    lemma_wrap_shift(x * y, k * y);
}

/// The machine's wrapping sum is the wrapped sum.
pub proof fn lemma_wrapping_add(a: i64, b: i64)
    ensures
        a.wrapping_add(b) == wrap(a + b),
{
    let sum: int = a + b;
    if sum > i64::MAX {
        lemma_wrap_fits(sum - modulus());
        lemma_wrap_shift(sum - modulus(), 1);
        assert(sum - modulus() + modulus() * 1 == sum);
    } else if sum < i64::MIN {
        lemma_wrap_fits(sum + modulus());
        lemma_wrap_shift(sum + modulus(), -1);
        assert(sum + modulus() + modulus() * (-1) == sum);
    } else {
        lemma_wrap_fits(sum);
    }
}

/// The machine's wrapping difference is the wrapped difference.
pub proof fn lemma_wrapping_sub(a: i64, b: i64)
    ensures
        a.wrapping_sub(b) == wrap(a - b),
{
    let diff: int = a - b;
    if diff > i64::MAX {
        lemma_wrap_fits(diff - modulus());
        lemma_wrap_shift(diff - modulus(), 1);
        assert(diff - modulus() + modulus() * 1 == diff);
    } else if diff < i64::MIN {
        lemma_wrap_fits(diff + modulus());
        lemma_wrap_shift(diff + modulus(), -1);
        assert(diff + modulus() + modulus() * (-1) == diff);
    } else {
        lemma_wrap_fits(diff);
    }
}

/// The machine's wrapping product is the wrapped product.
pub proof fn lemma_wrapping_mul(a: i64, b: i64)
    ensures
        a.wrapping_mul(b) == wrap(a * b),
{
}

} // verus!
