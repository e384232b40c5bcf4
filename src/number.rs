//! IEEE-754 binary64 numbers held as their 64-bit pattern, and the exact
//! conversions between such numbers and integers.
use vstd::arithmetic::div_mod::{
    lemma_div_denominator, lemma_div_multiples_vanish, lemma_fundamental_div_mod,
    lemma_mod_multiples_basic, lemma_small_mod,
};
use vstd::arithmetic::power2::{
    lemma2_to64, lemma2_to64_rest, lemma_pow2_pos, lemma_pow2_strictly_increases,
    lemma_pow2_unfold, pow2,
};
use vstd::bits::{lemma_u64_pow2_no_overflow, lemma_u64_shl_is_mul};
use vstd::prelude::*;

verus! {

/// 2^52: the implicit leading bit of a normal significand.
pub const HIDDEN_BIT: u64 = 0x10_0000_0000_0000;

/// 2^53: the first integer beyond which not every integer is a binary64 number.
pub const SIGNIFICAND_LIMIT: u64 = 0x20_0000_0000_0000;

/// The 11-bit biased exponent field of a bit pattern.
pub open spec fn exponent_field(b: u64) -> u64 {
    (b >> 52u64) & 0x7ffu64
}

/// The 52-bit fraction field of a bit pattern.
pub open spec fn fraction_field(b: u64) -> u64 {
    b & 0xf_ffff_ffff_ffffu64
}

/// Whether the sign bit is set.
pub open spec fn sign_field(b: u64) -> bool {
    (b >> 63u64) == 1u64
}

/// Whether the pattern is a NaN.
pub open spec fn is_nan(b: u64) -> bool {
    exponent_field(b) == 0x7ff && fraction_field(b) != 0
}

/// The pattern with the sign of a zero dropped: +0.0 and -0.0 both give 0,
/// which is +0.0; every other pattern is left as it is.
pub open spec fn canonical(b: u64) -> u64 {
    if b & 0x7fff_ffff_ffff_ffffu64 == 0 {
        0
    } else {
        b
    }
}

/// Floating-point equality on patterns: never for a NaN, and +0.0 equals
/// -0.0.
pub open spec fn float_eq(a: u64, b: u64) -> bool {
    !is_nan(a) && !is_nan(b) && canonical(a) == canonical(b)
}

/// Whether `b` is a NaN.
pub fn nan(b: u64) -> (r: bool)
    ensures
        r == is_nan(b),
{
    (b >> 52u64) & 0x7ffu64 == 0x7ffu64 && b & 0xf_ffff_ffff_ffffu64 != 0
}

/// `b` with the sign of a zero dropped.
pub fn canonical_pattern(b: u64) -> (r: u64)
    ensures
        r == canonical(b),
{
    if b & 0x7fff_ffff_ffff_ffffu64 == 0 {
        0
    } else {
        b
    }
}

/// The significand, with the hidden bit for normal numbers.
pub open spec fn significand(b: u64) -> nat {
    if exponent_field(b) == 0 {
        fraction_field(b) as nat
    } else {
        (fraction_field(b) + pow2(52)) as nat
    }
}

/// For a finite pattern whose scale is negative: the power of two that
/// divides the significand (the value is `significand / 2^k`).
pub open spec fn negative_scale(b: u64) -> nat {
    if exponent_field(b) == 0 {
        1074
    } else {
        (1075 - exponent_field(b)) as nat
    }
}

/// The absolute value of the number when it is finite and integral.
pub open spec fn integral_magnitude(b: u64) -> Option<nat> {
    if exponent_field(b) == 0x7ff {
        None
    } else if exponent_field(b) >= 1075 {
        Some((significand(b) * pow2((exponent_field(b) - 1075) as nat)) as nat)
    } else if significand(b) % pow2(negative_scale(b)) == 0 {
        Some((significand(b) / pow2(negative_scale(b))) as nat)
    } else {
        None
    }
}

/// The integer that the pattern denotes, if it denotes one exactly
/// (both zeros denote 0; infinities and NaNs denote none).
pub open spec fn integer_value(b: u64) -> Option<int> {
    match integral_magnitude(b) {
        Some(m) => Some(if sign_field(b) { -m } else { m as int }),
        None => None,
    }
}

/// How many low bits must be dropped from `m` so that the rest fits in 53 bits.
pub open spec fn dropped_bits(m: nat) -> nat
    decreases m,
{
    if m < pow2(53) || m == 0 {
        0
    } else {
        1 + dropped_bits((m / 2) as nat)
    }
}

/// `m` rounded to 53 significant bits, to nearest with ties to even.
pub open spec fn rounded(m: nat) -> nat {
    let s = dropped_bits(m);
    if s == 0 {
        m
    } else {
        let p = pow2(s);
        let q = m / p;
        let r = m % p;
        let h = pow2((s - 1) as nat);
        if r > h || (r == h && q % 2 == 1) {
            ((q + 1) * p) as nat
        } else {
            (q * p) as nat
        }
    }
}

/// The integer `i` rounded to the nearest binary64 number (ties to even).
pub open spec fn round_to_binary64(i: int) -> int {
    if i < 0 {
        -rounded((-i) as nat)
    } else {
        rounded(i as nat) as int
    }
}

/// The integer denoted by `b` when it lies in `lo..=hi`.
pub open spec fn integer_in_range(b: u64, lo: int, hi: int) -> Option<int> {
    match integer_value(b) {
        Some(i) => if lo <= i <= hi {
            Some(i)
        } else {
            None
        },
        None => None,
    }
}

proof fn lemma_pattern_fields(sgn: u64, e: u64, f: u64)
    by (bit_vector)
    requires
        sgn <= 1,
        e < 2048,
        f < 0x10_0000_0000_0000u64,
    ensures
        (((sgn << 63u64) | (e << 52u64) | f) >> 52u64) & 0x7ffu64 == e,
        ((sgn << 63u64) | (e << 52u64) | f) & 0xf_ffff_ffff_ffffu64 == f,
        ((((sgn << 63u64) | (e << 52u64) | f) >> 63u64) == 1u64) == (sgn == 1u64),
{
}

proof fn lemma_field_bounds(b: u64)
    by (bit_vector)
    ensures
        (b >> 52u64) & 0x7ffu64 <= 0x7ffu64,
        b & 0xf_ffff_ffff_ffffu64 < 0x10_0000_0000_0000u64,
{
}

proof fn lemma_pow2_at_least(a: nat, b: nat)
    requires
        a <= b,
    ensures
        pow2(a) <= pow2(b),
{
    if a < b {
        lemma_pow2_strictly_increases(a, b);
    }
}

/// The magnitude of `b` when it is finite, integral and below 2^64.
fn magnitude_of(b: u64) -> (r: Option<u64>)
    ensures
        match r {
            Some(m) => integral_magnitude(b) == Some(m as nat),
            None => integral_magnitude(b) is None || integral_magnitude(b).unwrap() >= pow2(64),
        },
{
    proof {
        lemma_field_bounds(b);
        lemma2_to64();
        lemma2_to64_rest();
    }
    let e = (b >> 52u64) & 0x7ffu64;
    let f = b & 0xf_ffff_ffff_ffffu64;
    if e == 0x7ff {
        return None;
    }
    let sig: u64 = if e == 0 {
        f
    } else {
        f + HIDDEN_BIT
    };
    assert(sig as nat == significand(b));
    if e >= 1075 {
        let s = e - 1075;
        if s > 11 {
            proof {
                lemma_pow2_at_least(12, s as nat);
                assert(sig as nat * pow2(s as nat) >= pow2(52) * pow2(12)) by (nonlinear_arith)
                    requires
                        sig as nat >= pow2(52),
                        pow2(s as nat) >= pow2(12),
                ;
            }
            return None;
        }
        proof {
            lemma_pow2_at_least(s as nat, 11);
            assert(sig as nat * pow2(s as nat) <= u64::MAX) by (nonlinear_arith)
                requires
                    sig < 0x20_0000_0000_0000u64,
                    pow2(s as nat) <= 2048,
            ;
            lemma_u64_shl_is_mul(sig, s);
        }
        Some(sig << s)
    } else {
        let k: u64 = if e == 0 {
            1074
        } else {
            1075 - e
        };
        assert(k as nat == negative_scale(b));
        if k >= 64 {
            proof {
                lemma_pow2_strictly_increases(53, k as nat);
                lemma_small_mod(sig as nat, pow2(k as nat));
            }
            if sig == 0 {
                proof {
                    lemma_pow2_pos(k as nat);
                }
                Some(0)
            } else {
                None
            }
        } else {
            proof {
                lemma_u64_pow2_no_overflow(k as nat);
                lemma_u64_shl_is_mul(1, k);
            }
            let p: u64 = 1u64 << k;
            if sig % p == 0 {
                Some(sig / p)
            } else {
                None
            }
        }
    }
}

/// The integer that `b` denotes exactly, when it lies in `lo..=hi`.
pub fn exact_integer_in(b: u64, lo: i128, hi: i128) -> (r: Option<i128>)
    requires
        -0x1_0000_0000_0000_0000 < lo <= hi < 0x1_0000_0000_0000_0000,
    ensures
        match r {
            Some(i) => integer_in_range(b, lo as int, hi as int) == Some(i as int),
            None => integer_in_range(b, lo as int, hi as int) is None,
        },
{
    proof {
        lemma2_to64();
    }
    match magnitude_of(b) {
        Some(m) => {
            let i: i128 = if (b >> 63u64) == 1u64 {
                -(m as i128)
            } else {
                m as i128
            };
            if lo <= i && i <= hi {
                Some(i)
            } else {
                None
            }
        },
        None => None,
    }
}

/// The bit pattern of the binary64 number nearest to the integer whose sign
/// is `negative` and whose magnitude is `m` (ties to even); 0 gives +0.0.
pub fn pattern_of_integer(negative: bool, m: u64) -> (b: u64)
    ensures
        integer_value(b) == Some(
            if negative {
                -rounded(m as nat)
            } else {
                rounded(m as nat) as int
            },
        ),
        m == 0 ==> b == 0,
{
    proof {
        lemma2_to64();
        lemma2_to64_rest();
    }
    if m == 0 {
        proof {
            assert((0u64 >> 52u64) & 0x7ffu64 == 0u64 && 0u64 & 0xf_ffff_ffff_ffffu64 == 0u64
                && (0u64 >> 63u64) == 0u64) by (bit_vector);
            assert(dropped_bits(0) == 0);
            lemma_pow2_pos(1074);
            lemma_small_mod(0, pow2(1074));
        }
        return 0;
    }
    let mut p: u64 = 1;
    let mut s: u64 = 0;
    while m / p >= SIGNIFICAND_LIMIT
        invariant
            m > 0,
            s <= 11,
            1 <= p <= 2048,
            p == pow2(s as nat),
            dropped_bits(m as nat) == s + dropped_bits((m / p) as nat),
            s > 0 ==> m / p >= pow2(52),
        decreases 11 - s,
    {
        proof {
            lemma2_to64();
            lemma2_to64_rest();
            lemma_fundamental_div_mod(m as int, p as int);
            if s >= 11 {
                lemma_pow2_at_least(11, s as nat);
                assert(false) by (nonlinear_arith)
                    requires
                        m as int == p * (m / p) + m % p,
                        m % p >= 0,
                        m / p >= 0x20_0000_0000_0000,
                        p >= 2048,
                        m < 0x1_0000_0000_0000_0000,
                ;
            }
            lemma_pow2_unfold((s + 1) as nat);
            lemma_pow2_at_least((s + 1) as nat, 11);
            lemma_div_denominator(m as int, p as int, 2);
            assert(dropped_bits((m / p) as nat) == 1 + dropped_bits(((m / p) / 2) as nat));
        }
        p = p * 2;
        s = s + 1;
    }
    assert(dropped_bits((m / p) as nat) == 0);
    let q = m / p;
    let mut sig: u64;
    if s == 0 {
        sig = m;
    } else {
        let h = p / 2;
        proof {
            lemma_pow2_unfold(s as nat);
        }
        if m % p > h || (m % p == h && q % 2 == 1) {
            sig = q + 1;
        } else {
            sig = q;
        }
    }
    assert(rounded(m as nat) == sig * pow2(s as nat));
    assert(HIDDEN_BIT <= sig <= SIGNIFICAND_LIMIT || (s == 0 && sig < HIDDEN_BIT));
    if sig == SIGNIFICAND_LIMIT {
        proof {
            lemma_pow2_unfold((s + 1) as nat);
            assert(SIGNIFICAND_LIMIT * pow2(s as nat) == HIDDEN_BIT * pow2((s + 1) as nat))
                by (nonlinear_arith)
                requires
                    pow2((s + 1) as nat) == 2 * pow2(s as nat),
            ;
        }
        sig = HIDDEN_BIT;
        s = s + 1;
    }
    let ghost sig0 = sig;
    let mut t: u64 = 0;
    while sig < HIDDEN_BIT
        invariant
            sig0 >= 1,
            sig0 < SIGNIFICAND_LIMIT,
            sig == sig0 * pow2(t as nat),
            sig < SIGNIFICAND_LIMIT,
            t <= 52,
            t > 0 ==> sig0 < HIDDEN_BIT,
        decreases 52 - t,
    {
        proof {
            lemma2_to64();
            lemma2_to64_rest();
            lemma_pow2_unfold((t + 1) as nat);
            if t >= 52 {
                lemma_pow2_at_least(52, t as nat);
                assert(false) by (nonlinear_arith)
                    requires
                        sig == sig0 * pow2(t as nat),
                        sig0 >= 1,
                        pow2(t as nat) >= 0x10_0000_0000_0000,
                        sig < 0x10_0000_0000_0000,
                ;
            }
            assert(sig * 2 == sig0 * pow2((t + 1) as nat)) by (nonlinear_arith)
                requires
                    sig == sig0 * pow2(t as nat),
                    pow2((t + 1) as nat) == 2 * pow2(t as nat),
            ;
        }
        sig = sig * 2;
        t = t + 1;
    }
    let e: u64 = 1075 + s - t;
    let sgn: u64 = if negative {
        1
    } else {
        0
    };
    let b = (sgn << 63u64) | (e << 52u64) | (sig - HIDDEN_BIT);
    proof {
        lemma_pattern_fields(sgn, e, (sig - HIDDEN_BIT) as u64);
        assert(significand(b) == sig);
        if t == 0 {
            assert(pow2(0) == 1);
            assert(integral_magnitude(b) == Some(rounded(m as nat)));
        } else {
            assert(s == 0);
            assert(negative_scale(b) == t);
            lemma_pow2_pos(t as nat);
            lemma_mod_multiples_basic(sig0 as int, pow2(t as nat) as int);
            lemma_div_multiples_vanish(sig0 as int, pow2(t as nat) as int);
            assert(sig0 * pow2(t as nat) == pow2(t as nat) * sig0) by (nonlinear_arith);
            assert(pow2(0) == 1);
            assert(integral_magnitude(b) == Some(rounded(m as nat)));
        }
    }
    b
}

} // verus!
