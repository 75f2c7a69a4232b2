use vstd::prelude::*;
use vstd::arithmetic::power2::{
    pow2,
    lemma_pow2_adds,
    lemma_pow2_pos,
    lemma_pow2_strictly_increases,
    lemma2_to64,
    lemma2_to64_rest,
};
use vstd::bits::lemma_u64_shr_is_div;

verus! {

// Coordinates are kept as IEEE-754 binary64 encodings: bit 63 is the sign,
// bits 52..62 the biased exponent, bits 0..51 the fraction.

pub open spec fn exponent_field(b: u64) -> u64 {
    (b >> 52u64) & 0x7ffu64
}

pub open spec fn fraction_field(b: u64) -> u64 {
    b & 0xf_ffff_ffff_ffffu64
}

pub open spec fn sign_bit(b: u64) -> bool {
    (b >> 63u64) == 1u64
}

/// Neither an infinity nor a NaN.
pub open spec fn is_finite(b: u64) -> bool {
    exponent_field(b) != 0x7ff
}

pub open spec fn is_nan(b: u64) -> bool {
    exponent_field(b) == 0x7ff && fraction_field(b) != 0
}

pub open spec fn is_zero(b: u64) -> bool {
    exponent_field(b) == 0 && fraction_field(b) == 0
}

/// The significand with its implicit leading bit, for normal numbers.
pub open spec fn significand(b: u64) -> nat {
    if exponent_field(b) == 0 {
        fraction_field(b) as nat
    } else {
        (fraction_field(b) + 0x10_0000_0000_0000) as nat
    }
}

/// The power of two that the significand is scaled by, counted from
/// the smallest subnormal step 2^-1074.
pub open spec fn binade(b: u64) -> nat {
    if exponent_field(b) == 0 {
        0
    } else {
        (exponent_field(b) - 1) as nat
    }
}

/// The number that a finite encoding stands for, times 2^1074: every
/// finite binary64 number is an integer multiple of 2^-1074.
pub open spec fn scaled_value(b: u64) -> int {
    let m = (significand(b) * pow2(binade(b))) as int;
    if sign_bit(b) {
        -m
    } else {
        m
    }
}

/// The encoded number lies in `[0, n)`.
pub open spec fn in_extent(b: u64, n: int) -> bool {
    is_finite(b) && 0 <= scaled_value(b) && scaled_value(b) < n * pow2(1074)
}

/// IEEE-754 equality of two encodings: not NaN, and the same encoding or
/// two zeros of either sign.
pub open spec fn same_number(a: u64, b: u64) -> bool {
    !is_nan(a) && !is_nan(b) && (a == b || (is_zero(a) && is_zero(b)))
}

/// The encoding stands for `k + 1/2`, the middle of tile `k`.
pub open spec fn is_tile_center(b: u64, k: int) -> bool {
    is_finite(b) && scaled_value(b) == (2 * k + 1) * pow2(1073)
}

proof fn lemma_scale_compare(m: int, n: int, p: int, q: int)
    requires
        0 < p,
        0 <= m,
        0 <= n,
    ensures
        (m * p < n * (q * p)) == (m < n * q),
{
    assert((m * p < n * (q * p)) == (m < n * q)) by (nonlinear_arith)
        requires
            0 < p,
    ;
}

/// Whether the encoded number lies in `[0, n)`: false for NaN and the
/// infinities, true for both zeros when `n > 0`.
pub fn coord_in_extent(b: u64, n: u32) -> (r: bool)
    ensures
        r == in_extent(b, n as int),
{
    let e: u64 = (b >> 52u64) & 0x7ffu64;
    let f: u64 = b & 0xf_ffff_ffff_ffffu64;
    let neg: bool = (b >> 63u64) == 1u64;
    assert(f < 0x10_0000_0000_0000) by (bit_vector)
        requires
            f == b & 0xf_ffff_ffff_ffffu64,
    ;
    assert(e < 0x800) by (bit_vector)
        requires
            e == (b >> 52u64) & 0x7ffu64,
    ;
    if e == 0x7ff {
        return false;
    }
    let sig: u64 = if e == 0 { f } else { f + 0x10_0000_0000_0000 };
    let bin: u64 = if e == 0 { 0 } else { e - 1 };
    let ghost p = pow2(bin as nat) as int;
    let ghost big = pow2(1074) as int;
    proof {
        lemma_pow2_pos(bin as nat);
        lemma_pow2_pos(1074);
        assert(sig == significand(b));
        assert(bin == binade(b));
    }
    if sig == 0 {
        assert(scaled_value(b) == 0) by (nonlinear_arith)
            requires
                significand(b) == 0,
                scaled_value(b) == (if sign_bit(b) {
                    -(significand(b) * pow2(binade(b)))
                } else {
                    (significand(b) * pow2(binade(b))) as int
                }),
        ;
        assert((0 < n as int * big) == (n > 0)) by (nonlinear_arith)
            requires
                big > 0,
                n >= 0,
        ;
        return n > 0;
    }
    assert(sig * p > 0) by (nonlinear_arith)
        requires
            sig > 0,
            p > 0,
    ;
    if neg {
        return false;
    }
    if bin >= 1074 {
        proof {
            lemma2_to64();
            if bin > 1074 {
                lemma_pow2_strictly_increases(1074, bin as nat);
            }
            assert(sig * p >= n as int * big) by (nonlinear_arith)
                requires
                    p >= big,
                    big > 0,
                    sig >= 0x10_0000_0000_0000,
                    n < 0x1_0000_0000,
            ;
        }
        return false;
    }
    let shift: u64 = 1074 - bin;
    proof {
        lemma_pow2_adds(bin as nat, shift as nat);
        lemma_pow2_pos(shift as nat);
        lemma_scale_compare(sig as int, n as int, p, pow2(shift as nat) as int);
    }
    if shift >= 64 {
        proof {
            lemma2_to64();
            if shift > 64 {
                lemma_pow2_strictly_increases(64, shift as nat);
            }
            let q = pow2(shift as nat) as int;
            assert((sig < n as int * q) == (n > 0)) by (nonlinear_arith)
                requires
                    q >= 0x1_0000_0000_0000_0000,
                    sig < 0x20_0000_0000_0000,
                    n >= 0,
            ;
        }
        return n > 0;
    }
    proof {
        lemma_u64_shr_is_div(sig, shift);
        let q = pow2(shift as nat) as int;
        assert((sig < n as int * q) == (sig as int / q < n as int)) by (nonlinear_arith)
            requires
                q > 0,
                sig >= 0,
        ;
    }
    (sig >> shift) < n as u64
}

/// IEEE-754 equality of the numbers that `a` and `b` encode.
pub fn numbers_equal(a: u64, b: u64) -> (r: bool)
    ensures
        r == same_number(a, b),
{
    let ea: u64 = (a >> 52u64) & 0x7ffu64;
    let fa: u64 = a & 0xf_ffff_ffff_ffffu64;
    let eb: u64 = (b >> 52u64) & 0x7ffu64;
    let fb: u64 = b & 0xf_ffff_ffff_ffffu64;
    if (ea == 0x7ff && fa != 0) || (eb == 0x7ff && fb != 0) {
        return false;
    }
    a == b || (ea == 0 && fa == 0 && eb == 0 && fb == 0)
}

/// The encoding of `k + 1/2`, the middle of tile `k` along one axis.
pub fn tile_center(k: i32) -> (r: u64)
    ensures
        is_tile_center(r, k as int),
{
    let v: i64 = 2 * (k as i64) + 1;
    let neg: bool = v < 0;
    let av: u64 = if neg { (-v) as u64 } else { v as u64 };
    let mut m: u64 = av;
    let mut bin: u64 = 1073;
    proof {
        lemma2_to64();
        assert(pow2((1073 - bin) as nat) == 1);
    }
    while m < 0x10_0000_0000_0000
        invariant
            1 <= av <= 0x1_0000_0001,
            bin <= 1073,
            1073 - bin <= 52,
            m == av * pow2((1073 - bin) as nat),
            m >= pow2((1073 - bin) as nat),
            m < 0x20_0000_0000_0000,
        decreases bin,
    {
        let ghost d = (1073 - bin) as nat;
        proof {
            lemma2_to64();
            lemma2_to64_rest();
            if d >= 52 {
                if d > 52 {
                    lemma_pow2_strictly_increases(52, d);
                }
                assert(false);
            }
            lemma_pow2_adds(d, 1);
            assert(av * pow2(d + 1) == (av * pow2(d)) * 2) by (nonlinear_arith)
                requires
                    pow2(d + 1) == pow2(d) * pow2(1),
                    pow2(1) == 2,
            ;
        }
        m = m * 2;
        bin = bin - 1;
    }
    let e: u64 = bin + 1;
    let f: u64 = m - 0x10_0000_0000_0000;
    let s: u64 = if neg { 1 } else { 0 };
    let r: u64 = (s << 63u64) | (e << 52u64) | f;
    assert(exponent_field(r) == e && fraction_field(r) == f && sign_bit(r) == (s == 1))
        by (bit_vector)
        requires
            r == (s << 63u64) | (e << 52u64) | f,
            s <= 1,
            e < 0x800,
            f < 0x10_0000_0000_0000,
    ;
    proof {
        let d = (1073 - bin) as nat;
        lemma_pow2_adds(d, bin as nat);
        assert(significand(r) == m);
        assert(binade(r) == bin);
        assert(m * pow2(bin as nat) == av * pow2(1073)) by (nonlinear_arith)
            requires
                m == av * pow2(d),
                pow2(d) * pow2(bin as nat) == pow2(1073),
        ;
        let v2 = 2 * k + 1;
        let big = pow2(1073) as int;
        if neg {
            assert(av == -v2);
            assert(-(av * big) == v2 * big) by (nonlinear_arith)
                requires
                    av == -v2,
            ;
        } else {
            assert(av == v2);
        }
    }
    r
}

} // verus!
