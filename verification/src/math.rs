use vstd::prelude::*;
use crate::types::MarketError;

verus! {

/// The n-th power of ten.
pub open spec fn pow10(n: nat) -> nat
    decreases n,
{
    if n == 0 {
        1
    } else {
        10 * pow10((n - 1) as nat)
    }
}

/// Powers of ten are positive.
pub proof fn lemma_pow10_pos(n: nat)
    ensures
        pow10(n) >= 1,
    decreases n,
{
    if n > 0 {
        lemma_pow10_pos((n - 1) as nat);
    }
}

/// Powers of ten grow with the exponent.
pub proof fn lemma_pow10_mono(a: nat, b: nat)
    requires
        a <= b,
    ensures
        pow10(a) <= pow10(b),
    decreases b,
{
    if a < b {
        lemma_pow10_mono(a, (b - 1) as nat);
        lemma_pow10_pos((b - 1) as nat);
    }
}

/// The largest power of ten a machine word holds.
pub proof fn lemma_pow10_19()
    ensures
        pow10(19) == 10_000_000_000_000_000_000,
{
    assert(pow10(0) == 1);
    assert(pow10(1) == 10);
    assert(pow10(2) == 100);
    assert(pow10(3) == 1000);
    assert(pow10(4) == 10000);
    assert(pow10(5) == 100000);
    assert(pow10(6) == 1000000);
    assert(pow10(7) == 10000000);
    assert(pow10(8) == 100000000);
    assert(pow10(9) == 1000000000);
    assert(pow10(10) == 10000000000);
    assert(pow10(11) == 100000000000);
    assert(pow10(12) == 1000000000000);
    assert(pow10(13) == 10000000000000);
    assert(pow10(14) == 100000000000000);
    assert(pow10(15) == 1000000000000000);
    assert(pow10(16) == 10000000000000000);
    assert(pow10(17) == 100000000000000000);
    assert(pow10(18) == 1000000000000000000);
    assert(pow10(19) == 10000000000000000000);
}

/// 10^n as a machine word; defined for the exponents that fit in one.
pub fn pow10_u64(n: u32) -> (r: u64)
    requires
        n <= 19,
    ensures
        r == pow10(n as nat),
{
    proof {
        lemma_pow10_19();
    }
    let mut i: u32 = 0;
    let mut acc: u64 = 1;
    while i < n
        invariant
            i <= n <= 19,
            acc == pow10(i as nat),
        decreases n - i,
    {
        proof {
            lemma_pow10_19();
            lemma_pow10_mono((i + 1) as nat, 19);
            assert(pow10((i + 1) as nat) == 10 * pow10(i as nat));
        }
        acc = acc * 10;
        i = i + 1;
    }
    acc
}

/// The quote-asset value of `mag` base units at `price`, with the engine's
/// fixed-point convention: scaled by `scale` and truncated.
pub open spec fn quote_amount(mag: u64, price: u64, scale: u64) -> int {
    (mag * price) / (scale as int)
}

/// A quote amount is never negative.
pub proof fn lemma_quote_amount_nonneg(mag: u64, price: u64, scale: u64)
    requires
        scale >= 1,
    ensures
        quote_amount(mag, price, scale) >= 0,
{
    assert((mag as int) * (price as int) >= 0) by (nonlinear_arith);
    vstd::arithmetic::div_mod::lemma_div_pos_is_pos((mag as int) * (price as int), scale as int);
}

/// Computes the quote amount; fails with `Overflow` exactly when the result
/// does not fit in a machine word.
pub fn quote_amount_u64(mag: u64, price: u64, scale: u64) -> (r: Result<u64, MarketError>)
    requires
        scale >= 1,
    ensures
        match r {
            Ok(v) => v == quote_amount(mag, price, scale)
                && quote_amount(mag, price, scale) <= u64::MAX,
            Err(e) => e == MarketError::Overflow && quote_amount(mag, price, scale) > u64::MAX,
        },
{
    proof {
        assert((mag as int) * (price as int) <= u128::MAX as int) by (nonlinear_arith)
            requires
                mag <= u64::MAX,
                price <= u64::MAX,
        ;
    }
    let p: u128 = (mag as u128) * (price as u128);
    let q: u128 = p / (scale as u128);
    if q > u64::MAX as u128 {
        Err(MarketError::Overflow)
    } else {
        Ok(q as u64)
    }
}

} // verus!
