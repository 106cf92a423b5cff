//! Conversions between integers and IEEE-754 binary32 bit patterns, as the
//! `as` casts between `f32` and the integer types perform them.

use vstd::prelude::*;

verus! {

pub open spec fn two_pow(n: nat) -> nat
    decreases n,
{
    if n == 0 {
        1
    } else {
        2 * two_pow((n - 1) as nat)
    }
}

pub open spec fn f32_exponent(b: u32) -> nat {
    ((b / 0x80_0000) % 256) as nat
}

pub open spec fn f32_fraction(b: u32) -> nat {
    (b % 0x80_0000) as nat
}

pub open spec fn f32_negative(b: u32) -> bool {
    b >= 0x8000_0000
}

pub open spec fn f32_is_nan(b: u32) -> bool {
    f32_exponent(b) == 255 && f32_fraction(b) != 0
}

/// The magnitude rounded toward zero to an integer; an infinity counts as 2^128.
pub open spec fn f32_trunc_magnitude(b: u32) -> nat {
    let e = f32_exponent(b);
    let m = f32_fraction(b) + 0x80_0000;
    if e < 127 {
        0
    } else if e >= 150 {
        m * two_pow((e - 150) as nat)
    } else {
        m / two_pow((150 - e) as nat)
    }
}

/// The value cast to an integer type whose range is `lo..=hi`: rounded toward
/// zero, held within the range, and 0 for NaN.
pub open spec fn f32_to_int(b: u32, lo: int, hi: int) -> int {
    if f32_is_nan(b) {
        0
    } else {
        let v = if f32_negative(b) {
            -(f32_trunc_magnitude(b) as int)
        } else {
            f32_trunc_magnitude(b) as int
        };
        if v < lo {
            lo
        } else if v > hi {
            hi
        } else {
            v
        }
    }
}

/// The number of binary digits of `a`.
pub open spec fn bit_len(a: nat) -> nat
    decreases a,
{
    if a == 0 {
        0
    } else {
        1 + bit_len(a / 2)
    }
}

/// `a` rounded to 24 significant binary digits, ties to even.
pub open spec fn round24(a: nat) -> nat {
    if bit_len(a) <= 24 {
        a
    } else {
        let p = two_pow((bit_len(a) - 24) as nat);
        let q = a / p;
        let r = a % p;
        let up = r > p / 2 || (r == p / 2 && q % 2 == 1);
        (if up {
            q + 1
        } else {
            q
        }) * p
    }
}

/// The binary32 pattern of a positive integer with at most 24 significant
/// digits: biased exponent, then the fraction after the leading one.
pub open spec fn f32_encode_positive(a: nat) -> nat {
    let n = bit_len(a);
    let f = if n <= 24 {
        a * two_pow((24 - n) as nat)
    } else {
        a / two_pow((n - 24) as nat)
    };
    ((126 + n) * 0x80_0000 + f - 0x80_0000) as nat
}

/// The bit pattern of `v as f32`.
pub open spec fn f32_of_int(v: int) -> u32 {
    if v == 0 {
        0
    } else {
        let a = if v < 0 {
            -v
        } else {
            v
        };
        ((if v < 0 {
            0x8000_0000nat
        } else {
            0nat
        }) + f32_encode_positive(round24(a as nat))) as u32
    }
}

pub proof fn lemma_two_pow_pos(n: nat)
    ensures
        two_pow(n) >= 1,
    decreases n,
{
    if n > 0 {
        lemma_two_pow_pos((n - 1) as nat);
    }
}

pub proof fn lemma_two_pow_add(a: nat, b: nat)
    ensures
        two_pow(a + b) == two_pow(a) * two_pow(b),
    decreases a,
{
    if a == 0 {
        assert(two_pow(0) == 1);
        assert(a + b == b);
    } else {
        lemma_two_pow_add((a - 1) as nat, b);
        assert(two_pow(a) == 2 * two_pow((a - 1) as nat));
        assert(two_pow(a + b) == 2 * two_pow((a - 1 + b) as nat));
        assert(2 * (two_pow((a - 1) as nat) * two_pow(b)) == (2 * two_pow((a - 1) as nat))
            * two_pow(b)) by (nonlinear_arith);
    }
}

pub proof fn lemma_two_pow_mono(a: nat, b: nat)
    requires
        a <= b,
    ensures
        two_pow(a) <= two_pow(b),
    decreases b,
{
    if a < b {
        lemma_two_pow_mono(a, (b - 1) as nat);
        lemma_two_pow_pos((b - 1) as nat);
    }
}

pub proof fn lemma_two_pow_values()
    ensures
        two_pow(8) == 0x100,
        two_pow(23) == 0x80_0000,
        two_pow(24) == 0x100_0000,
        two_pow(31) == 0x8000_0000,
        two_pow(32) == 0x1_0000_0000,
        two_pow(34) == 0x4_0000_0000,
        two_pow(40) == 0x100_0000_0000,
{
    reveal_with_fuel(two_pow, 41);
}

/// `a` lies between the powers of two around its length.
pub proof fn lemma_bit_len_bounds(a: nat)
    ensures
        a < two_pow(bit_len(a)),
        a > 0 ==> two_pow((bit_len(a) - 1) as nat) <= a,
    decreases a,
{
    if a > 0 {
        lemma_bit_len_bounds(a / 2);
        if a / 2 > 0 {
            assert(bit_len(a / 2) >= 1);
        } else {
            assert(bit_len(a / 2) == 0);
        }
    }
}

/// `2^n` as a `u64`, for `n` up to 40.
fn pow_u64(n: u32) -> (r: u64)
    requires
        n <= 40,
    ensures
        r == two_pow(n as nat),
{
    let mut p: u64 = 1;
    let mut k: u32 = 0;
    proof {
        lemma_two_pow_values();
        lemma_two_pow_mono(0, 40);
    }
    while k < n
        invariant
            k <= n <= 40,
            p == two_pow(k as nat),
            p <= two_pow(40),
            two_pow(40) == 0x100_0000_0000,
        decreases n - k,
    {
        proof {
            lemma_two_pow_mono((k + 1) as nat, 40);
        }
        p = p * 2;
        k += 1;
    }
    p
}

/// The number of binary digits of `a`.
fn bit_len_u64(a: u64) -> (r: u32)
    requires
        a <= 0x2_0000_0000,
    ensures
        r == bit_len(a as nat),
        r <= 34,
{
    let mut t: u64 = a;
    let mut n: u32 = 0;
    proof {
        lemma_two_pow_values();
        assert(two_pow(0) == 1);
    }
    while t > 0
        invariant
            bit_len(a as nat) == n + bit_len(t as nat),
            t * two_pow(n as nat) <= a,
            a <= 0x2_0000_0000,
            n <= 34,
            two_pow(34) == 0x4_0000_0000,
        decreases t,
    {
        proof {
            assert(two_pow(n as nat) <= t * two_pow(n as nat)) by (nonlinear_arith)
                requires
                    t >= 1,
            ;
            if n >= 34 {
                lemma_two_pow_mono(34, n as nat);
            }
            assert((t / 2) * two_pow((n + 1) as nat) <= t * two_pow(n as nat)) by (nonlinear_arith)
                requires
                    two_pow((n + 1) as nat) == 2 * two_pow(n as nat),
            ;
        }
        t = t / 2;
        n += 1;
    }
    proof {
        assert(bit_len(0) == 0);
        if n > 34 {
        }
    }
    n
}


/// `v as i64` for the binary32 value with bit pattern `b`, held within `lo..=hi`.
pub fn f32_to_int_sat(b: u32, lo: i64, hi: i64) -> (r: i64)
    requires
        -0x8000_0000 <= lo <= 0 <= hi <= 0x7FFF_FFFF,
    ensures
        r == f32_to_int(b, lo as int, hi as int),
{
    let e = (b / 0x80_0000) % 256;
    let frac = b % 0x80_0000;
    if e == 255 && frac != 0 {
        return 0;
    }
    let m: u64 = frac as u64 + 0x80_0000;
    proof {
        lemma_two_pow_values();
    }
    let mag: u64 = if e < 127 {
        0
    } else if e >= 158 {
        proof {
            lemma_two_pow_mono(8, (e - 150) as nat);
            let p = two_pow((e - 150) as nat);
            assert(m * p >= 0x80_0000 * 0x100) by (nonlinear_arith)
                requires
                    m >= 0x80_0000,
                    p >= 0x100,
            ;
        }
        0x1_0000_0000
    } else if e >= 150 {
        let p = pow_u64(e - 150);
        proof {
            lemma_two_pow_mono((e - 150) as nat, 8);
            assert(m * p < 0x100_0000 * 0x100) by (nonlinear_arith)
                requires
                    m < 0x100_0000,
                    p <= 0x100,
            ;
        }
        m * p
    } else {
        let p = pow_u64(150 - e);
        proof {
            lemma_two_pow_pos((150 - e) as nat);
        }
        m / p
    };
    proof {
        if e < 158 {
            assert(mag == f32_trunc_magnitude(b));
            assert(mag < 0x1_0000_0000) by {
                if e >= 127 && e < 150 {
                    let mi = m as nat;
                    let pp = two_pow((150 - e) as nat);
                    lemma_two_pow_pos((150 - e) as nat);
                    assert(mi / pp <= mi) by (nonlinear_arith)
                        requires
                            pp >= 1,
                    ;
                }
            }
        }
    }
    let v: i64 = if b >= 0x8000_0000 {
        -(mag as i64)
    } else {
        mag as i64
    };
    if v < lo {
        lo
    } else if v > hi {
        hi
    } else {
        v
    }
}

proof fn lemma_div_below(a: nat, x: nat, p: nat)
    requires
        p > 0,
        a < x * p,
    ensures
        a / p < x,
{
    assert(a / p < x) by (nonlinear_arith)
        requires
            p > 0,
            a < x * p,
    ;
}

proof fn lemma_div_above(a: nat, x: nat, p: nat)
    requires
        p > 0,
        x * p <= a,
    ensures
        x <= a / p,
{
    assert(x <= a / p) by (nonlinear_arith)
        requires
            p > 0,
            x * p <= a,
    ;
}

/// The bit length of a positive number no larger than `2^k` is at most `k + 1`.
proof fn lemma_bit_len_at_most(a: nat, k: nat)
    requires
        0 < a <= two_pow(k),
    ensures
        bit_len(a) <= k + 1,
{
    lemma_bit_len_bounds(a);
    if bit_len(a) > k + 1 {
        lemma_two_pow_mono(k + 1, (bit_len(a) - 1) as nat);
        assert(two_pow(k + 1) == 2 * two_pow(k));
        lemma_two_pow_pos(k);
    }
}

/// The 24-digit significand and exponent of a positive number below `2^33`.
fn encode_positive(a: u64) -> (r: u64)
    requires
        0 < a <= 0x2_0000_0000,
    ensures
        r == f32_encode_positive(a as nat),
        r < 0x8000_0000,
{
    proof {
        lemma_two_pow_values();
        lemma_bit_len_at_most(a as nat, 33);
        lemma_bit_len_bounds(a as nat);
    }
    let n = bit_len_u64(a);
    let ghost lowp = two_pow((n - 1) as nat);
    let f: u64 = if n <= 24 {
        let p = pow_u64(24 - n);
        proof {
            lemma_two_pow_pos((24 - n) as nat);
            lemma_two_pow_add((n - 1) as nat, (24 - n) as nat);
            lemma_two_pow_add(n as nat, (24 - n) as nat);
            assert(lowp * p <= a * p && a * p < two_pow(n as nat) * p) by (nonlinear_arith)
                requires
                    lowp <= a,
                    a < two_pow(n as nat),
                    p >= 1,
            ;
            lemma_two_pow_pos((24 - n) as nat);
        }
        a * p
    } else {
        let p = pow_u64(n - 24);
        proof {
            lemma_two_pow_pos((n - 24) as nat);
            lemma_two_pow_add(23, (n - 1 - 23) as nat);
            lemma_two_pow_add(24, (n - 24) as nat);
            assert(((n - 1) as nat) == 23 + ((n - 1 - 23) as nat));
            assert((n - 1 - 23) as nat == (n - 24) as nat);
            lemma_div_above(a as nat, 0x80_0000, p as nat);
            lemma_div_below(a as nat, 0x100_0000, p as nat);
        }
        a / p
    };
    assert(0x80_0000 <= f < 0x100_0000);
    (126 + n as u64) * 0x80_0000 + f - 0x80_0000
}

/// The bit pattern of `v as f32`.
pub fn f32_from_int(v: i32) -> (r: u32)
    ensures
        r == f32_of_int(v as int),
{
    if v == 0 {
        return 0;
    }
    let a: u64 = if v < 0 {
        (-(v as i64)) as u64
    } else {
        v as u64
    };
    proof {
        lemma_two_pow_values();
        lemma_bit_len_at_most(a as nat, 31);
        lemma_bit_len_bounds(a as nat);
    }
    let n = bit_len_u64(a);
    let r24: u64 = if n <= 24 {
        a
    } else {
        let p = pow_u64(n - 24);
        proof {
            lemma_two_pow_pos((n - 24) as nat);
        }
        let q = a / p;
        let rem = a % p;
        let half = p / 2;
        let up = rem > half || (rem == half && q % 2 == 1);
        proof {
            lemma_two_pow_add(24, (n - 24) as nat);
            lemma_div_below(a as nat, 0x100_0000, p as nat);
            lemma_two_pow_mono((n - 24) as nat, 8);
            assert((q + 1) * p <= 0x100_0000 * 0x100) by (nonlinear_arith)
                requires
                    q < 0x100_0000,
                    p <= 0x100,
            ;
            assert(q * p <= a) by (nonlinear_arith)
                requires
                    q == a / p,
                    p > 0,
            ;
        }
        if up {
            (q + 1) * p
        } else {
            q * p
        }
    };
    proof {
        assert(r24 == round24(a as nat));
        assert(r24 > 0) by {
            if n > 24 {
                let p = two_pow((n - 24) as nat);
                let q = (a as nat) / p;
                lemma_two_pow_pos((n - 24) as nat);
                lemma_two_pow_add(23, (n - 24) as nat);
                lemma_two_pow_add(24, (n - 24) as nat);
                lemma_two_pow_add(23, (n - 1 - 23) as nat);
                assert((n - 1 - 23) as nat == (n - 24) as nat);
                lemma_div_above(a as nat, 0x80_0000, p);
                assert(q * p > 0) by (nonlinear_arith)
                    requires
                        q >= 0x80_0000,
                        p >= 1,
                ;
                assert((q + 1) * p > 0) by (nonlinear_arith)
                    requires
                        q >= 0x80_0000,
                        p >= 1,
                ;
            }
        }
    }
    let bits = encode_positive(r24);
    let sign: u64 = if v < 0 {
        0x8000_0000
    } else {
        0
    };
    (sign + bits) as u32
}


/// The bit pattern of `x.round()`: the nearest whole number, halves away from
/// zero. Infinities and NaNs keep their bits.
pub open spec fn f32_round(b: u32) -> u32 {
    let e = f32_exponent(b);
    let sign: nat = if f32_negative(b) {
        0x8000_0000
    } else {
        0
    };
    if e >= 150 {
        b
    } else if e < 126 {
        sign as u32
    } else if e == 126 {
        (sign + 0x3F80_0000) as u32
    } else {
        let p = two_pow((150 - e) as nat);
        let m = f32_fraction(b) + 0x80_0000;
        let r = (m + p / 2) / p * p;
        if r == 0x100_0000 {
            (sign + (e + 1) * 0x80_0000) as u32
        } else {
            (sign + e * 0x80_0000 + r - 0x80_0000) as u32
        }
    }
}

/// `x.round()` on bit patterns.
pub fn f32_round_bits(b: u32) -> (r: u32)
    ensures
        r == f32_round(b),
{
    let e = (b / 0x80_0000) % 256;
    let sign: u32 = if b >= 0x8000_0000 {
        0x8000_0000
    } else {
        0
    };
    if e >= 150 {
        return b;
    }
    if e < 126 {
        return sign;
    }
    if e == 126 {
        return sign + 0x3F80_0000;
    }
    let p = pow_u64(150 - e);
    proof {
        lemma_two_pow_pos((150 - e) as nat);
        lemma_two_pow_values();
        lemma_two_pow_mono((150 - e) as nat, 23);
    }
    let m: u64 = (b % 0x80_0000) as u64 + 0x80_0000;
    let q: u64 = (m + p / 2) / p;
    proof {
        let k = (150 - e) as nat;
        let mi = m as nat;
        let pi = p as nat;
        let qi = q as nat;
        lemma_two_pow_add(k, (24 - k) as nat);
        lemma_two_pow_add(k, (23 - k) as nat);
        let c = two_pow((24 - k) as nat);
        let h = two_pow((23 - k) as nat);
        assert(pi * c == 0x100_0000);
        assert(pi * h == 0x80_0000);
        assert(mi + pi / 2 < (c + 1) * pi) by (nonlinear_arith)
            requires
                mi < pi * c,
                pi >= 1,
        ;
        lemma_div_below(mi + pi / 2, c + 1, pi);
        lemma_div_above(mi, h, pi);
        assert(mi / pi <= (mi + pi / 2) / pi) by (nonlinear_arith)
            requires
                pi >= 1,
        ;
        assert(h * pi <= qi * pi && qi * pi <= c * pi) by (nonlinear_arith)
            requires
                h <= qi,
                qi <= c,
        ;
    }
    let r: u64 = q * p;
    if r == 0x100_0000 {
        sign + (e + 1) * 0x80_0000
    } else {
        sign + e * 0x80_0000 + (r - 0x80_0000) as u32
    }
}

} // verus!
