//! Formatting of iteration counts for benchmark reports.
//!
//! Counts of a million or more are shown in millions with one decimal, as
//! `n as f64 / 1_000_000.0` printed with `{:.1}`: the count is converted to
//! the nearest `f64`, divided with correct rounding, and the quotient is
//! rounded to one decimal, halves to even.  All three steps are computed
//! exactly here on integers.
use vstd::prelude::*;
use vstd::arithmetic::power2::{lemma2_to64, lemma2_to64_rest, lemma_pow2_pos, lemma_pow2_unfold, pow2};

use crate::text::{dec, digit_char, digit_char_exec, push_char, u128_to_string};

verus! {

broadcast use vstd::string::group_string_axioms;

/// `n / d` rounded to the nearest integer, halves to the even neighbour.
pub open spec fn round_half_even(n: nat, d: nat) -> nat
    recommends
        d > 0,
{
    let q = n / d;
    let r = n % d;
    if 2 * r > d || (2 * r == d && q % 2 == 1) {
        q + 1
    } else {
        q
    }
}

/// The number of low bits that an `f64` cannot hold of `n < 2^64`: the
/// least `k >= from` with `n < 2^(53 + k)` (at most 11).
pub open spec fn dropped_bits(n: nat, from: nat) -> nat
    decreases 11 - from,
{
    if from >= 11 || n < pow2(53 + from) {
        from
    } else {
        dropped_bits(n, from + 1)
    }
}

/// `n` converted to the nearest `f64`, halves to even.
pub open spec fn nearest_f64_int(n: nat) -> nat {
    let k = dropped_bits(n, 0);
    round_half_even(n, pow2(k)) * pow2(k)
}

/// The largest `e <= from` with `x * 2^e < 2^53 * 10^6`: the scale that
/// puts the significand of `x / 10^6` in `[2^52, 2^53)`.
pub open spec fn quotient_exp(x: nat, from: nat) -> nat
    decreases from,
{
    if from == 0 || x * pow2(from) < pow2(53) * 1_000_000 {
        from
    } else {
        quotient_exp(x, (from - 1) as nat)
    }
}

/// `n as f64 / 1_000_000.0` printed with one decimal, as a number of
/// tenths.
pub open spec fn millions_tenths(n: nat) -> nat {
    let x = nearest_f64_int(n);
    let e = quotient_exp(x, 52);
    let m = round_half_even(x * pow2(e), 1_000_000);
    round_half_even(m * 10, pow2(e))
}

/// A count written for a report: millions with one decimal and `M`,
/// thousands without decimals and `K`, smaller counts in full.
pub open spec fn format_n_spec(n: nat) -> Seq<char> {
    if n >= 1_000_000 {
        let tenths = millions_tenths(n);
        dec(tenths / 10) + seq!['.', digit_char(tenths % 10), 'M']
    } else if n >= 1_000 {
        dec(round_half_even(n, 1_000)) + seq!['K']
    } else {
        dec(n)
    }
}

/// `round_half_even` on machine integers.
fn round_half_even_exec(n: u128, d: u128) -> (r: u128)
    requires
        0 < d,
        n < 0x8000_0000_0000_0000_0000_0000_0000_0000,
        d < 0x8000_0000_0000_0000_0000_0000_0000_0000,
    ensures
        r == round_half_even(n as nat, d as nat),
        r <= n / d + 1,
{
    let q = n / d;
    let rem = n % d;
    if 2 * rem > d || (2 * rem == d && q % 2 == 1) {
        q + 1
    } else {
        q
    }
}

/// `nearest_f64_int` on machine integers.
fn nearest_f64_int_exec(n: u128) -> (r: u128)
    requires
        n < 0x1_0000_0000_0000_0000,
    ensures
        r == nearest_f64_int(n as nat),
        r <= 0x1_0000_0000_0000_0800,
{
    proof {
        lemma2_to64();
        lemma2_to64_rest();
    }
    let mut k: u32 = 0;
    let mut s: u128 = 1;
    let mut limit: u128 = 0x20_0000_0000_0000;
    while k < 11 && n >= limit
        invariant
            k <= 11,
            s == pow2(k as nat),
            limit == pow2(53 + k as nat),
            s <= 2048,
            limit <= 0x1_0000_0000_0000_0000,
            dropped_bits(n as nat, 0) == dropped_bits(n as nat, k as nat),
        decreases 11 - k,
    {
        proof {
            lemma2_to64();
            lemma2_to64_rest();
            lemma_pow2_unfold((k + 1) as nat);
            lemma_pow2_unfold((53 + k + 1) as nat);
            if 54 + k < 64 {
                vstd::arithmetic::power2::lemma_pow2_strictly_increases((54 + k) as nat, 64);
            }
            if k < 11 {
                assert(s * 2 == pow2((k + 1) as nat));
                assert(pow2((k + 1) as nat) <= pow2(11)) by {
                    if k + 1 < 11 {
                        vstd::arithmetic::power2::lemma_pow2_strictly_increases((k + 1) as nat, 11);
                    }
                }
            }
        }
        k = k + 1;
        s = s * 2;
        limit = limit * 2;
    }
    let q = n / s;
    let rem = n % s;
    let base = n - rem;
    proof {
        lemma_pow2_pos(k as nat);
        assert(base == q * s) by (nonlinear_arith)
            requires
                q == n / s,
                rem == n % s,
                base == n - rem,
                s > 0,
        ;
    }
    let up = 2 * rem > s || (2 * rem == s && q % 2 == 1);
    let r = if up {
        base + s
    } else {
        base
    };
    proof {
        assert((q + 1) * s == q * s + s) by (nonlinear_arith);
    }
    r
}

/// `millions_tenths` on machine integers.
fn millions_tenths_exec(n: u128) -> (r: u128)
    requires
        n < 0x1_0000_0000_0000_0000,
    ensures
        r == millions_tenths(n as nat),
{
    proof {
        lemma2_to64();
        lemma2_to64_rest();
    }
    let x = nearest_f64_int_exec(n);
    let mut e: u32 = 52;
    let mut q: u128 = 0x10_0000_0000_0000;
    let bound: u128 = 9_007_199_254_740_992_000_000;
    assert(bound == pow2(53) * 1_000_000);
    assert(x * q <= 0x1_0000_0000_0000_0800 * 0x10_0000_0000_0000) by (nonlinear_arith)
        requires
            x <= 0x1_0000_0000_0000_0800,
            q <= 0x10_0000_0000_0000,
    ;
    while e > 0 && x * q >= bound
        invariant
            e <= 52,
            q == pow2(e as nat),
            q <= 0x10_0000_0000_0000,
            x <= 0x1_0000_0000_0000_0800,
            x * q <= 0x1_0000_0000_0000_0800 * 0x10_0000_0000_0000,
            bound == pow2(53) * 1_000_000,
            quotient_exp(x as nat, 52) == quotient_exp(x as nat, e as nat),
        decreases e,
    {
        proof {
            lemma_pow2_unfold(e as nat);
            assert(x * (q / 2) <= x * q) by (nonlinear_arith)
                requires
                    x >= 0,
                    q >= 0,
            ;
        }
        e = e - 1;
        q = q / 2;
    }
    proof {
        lemma_pow2_pos(e as nat);
    }
    let scaled = x * q;
    let m = round_half_even_exec(scaled, 1_000_000);
    proof {
        assert(scaled / 1_000_000 <= 0x1_0000_0000_0000_0800 * 0x10_0000_0000_0000 / 1_000_000) by (nonlinear_arith)
            requires
                scaled <= 0x1_0000_0000_0000_0800 * 0x10_0000_0000_0000,
        ;
    }
    round_half_even_exec(m * 10, q)
}

/// Writes a count for a report (see `format_n_spec`).
pub fn format_n(n: usize) -> (r: String)
    ensures
        r@ == format_n_spec(n as nat),
{
    let m = n as u128;
    if m >= 1_000_000 {
        let tenths = millions_tenths_exec(m);
        let mut s = u128_to_string(tenths / 10);
        push_char(&mut s, '.');
        push_char(&mut s, digit_char_exec((tenths % 10) as u32));
        push_char(&mut s, 'M');
        assert(s@ == dec((tenths / 10) as nat) + seq!['.', digit_char((tenths % 10) as nat), 'M']);
        s
    } else if m >= 1_000 {
        let k = round_half_even_exec(m, 1_000);
        let mut s = u128_to_string(k);
        push_char(&mut s, 'K');
        s
    } else {
        u128_to_string(m)
    }
}

} // verus!
