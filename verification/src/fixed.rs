//! Fixed-point conventions and small verified arithmetic helpers.
//!
//! Every continuous quantity in this crate is an `i64` holding a real value
//! scaled by [`FP`]: a world coordinate of `1.5` units is stored as
//! `3 * FP / 2`. Angles are radians scaled the same way.

use vstd::prelude::*;

verus! {

use vstd::arithmetic::div_mod::{
    lemma_fundamental_div_mod, lemma_fundamental_div_mod_converse,
};

/// The fixed-point scale: one whole unit.
pub const FP: i64 = 65536;

/// Pi in fixed-point radians (the floor of pi times `FP`).
pub const PI_FP: i64 = 205887;

/// Two pi in fixed-point radians; exactly `2 * PI_FP`, so that angles that
/// differ by a whole turn stay congruent under exact integer arithmetic.
pub const TWO_PI_FP: i64 = 411774;

/// Largest world coordinate magnitude the engine accepts (2^53). Keeps every
/// intermediate product of the traversal inside `i64`/`u128` range.
pub const COORD_MAX: i64 = 0x20_0000_0000_0000;

/// Largest cell edge length in fixed-point form (2^32, i.e. 65536 world
/// units per cell).
pub const CELL_MAX: i64 = 0x1_0000_0000;

/// Largest angle magnitude (fixed-point radians) accepted by angle
/// normalization; generous enough for any accumulated heading.
pub const ANGLE_MAX: i64 = 0x100_0000_0000;

/// The magnitude of an integer.
pub open spec fn abs_i(a: int) -> int {
    if a < 0 {
        -a
    } else {
        a
    }
}

/// Floor division by a positive divisor. In specifications `/` is Euclidean
/// division, which floors for positive divisors; Rust's own signed `/`
/// truncates toward zero instead, so the negative case is spelled out.
pub fn div_floor(a: i64, b: i64) -> (q: i64)
    requires
        1 <= b,
        -0x7fff_ffff_ffff_ffff <= a,
    ensures
        q == a as int / b as int,
        abs_i(q as int) <= abs_i(a as int),
{
    if a >= 0 {
        let qu: u64 = (a as u64) / (b as u64);
        proof {
            vstd::arithmetic::div_mod::lemma_div_pos_is_pos(a as int, b as int);
            vstd::arithmetic::div_mod::lemma_div_nonincreasing(a as int, b as int);
        }
        qu as i64
    } else {
        let m: u64 = (-a) as u64;
        let q0: u64 = m / (b as u64);
        let r0: u64 = m % (b as u64);
        proof {
            lemma_fundamental_div_mod(m as int, b as int);
            vstd::arithmetic::div_mod::lemma_div_pos_is_pos(m as int, b as int);
            vstd::arithmetic::div_mod::lemma_div_nonincreasing(m as int, b as int);
        }
        if r0 == 0 {
            proof {
                assert(a as int == (-(q0 as int)) * (b as int) + 0) by (nonlinear_arith)
                    requires
                        m as int == (b as int) * (q0 as int) + (r0 as int),
                        r0 == 0,
                        a as int == -(m as int),
                ;
                lemma_fundamental_div_mod_converse(a as int, b as int, -(q0 as int), 0);
            }
            -(q0 as i64)
        } else {
            proof {
                assert(a as int == (-(q0 as int) - 1) * (b as int) + ((b as int) - (r0 as int)))
                    by (nonlinear_arith)
                    requires
                        m as int == (b as int) * (q0 as int) + (r0 as int),
                        a as int == -(m as int),
                ;
                lemma_fundamental_div_mod_converse(
                    a as int,
                    b as int,
                    -(q0 as int) - 1,
                    (b as int) - (r0 as int),
                );
                vstd::arithmetic::div_mod::lemma_div_is_strictly_smaller(m as int, b as int);
            }
            -(q0 as i64) - 1
        }
    }
}

/// Euclidean remainder by a positive divisor: the result is always in
/// `[0, b)`, also for negative `a`.
pub fn mod_euclid(a: i64, b: i64) -> (r: i64)
    requires
        1 <= b,
        -0x7fff_ffff_ffff_ffff <= a,
    ensures
        r == a as int % b as int,
        0 <= r < b,
{
    if a >= 0 {
        let ru: u64 = (a as u64) % (b as u64);
        ru as i64
    } else {
        let m: u64 = (-a) as u64;
        let q0: u64 = m / (b as u64);
        let r0: u64 = m % (b as u64);
        proof {
            lemma_fundamental_div_mod(m as int, b as int);
        }
        if r0 == 0 {
            proof {
                assert(a as int == (-(q0 as int)) * (b as int) + 0) by (nonlinear_arith)
                    requires
                        m as int == (b as int) * (q0 as int) + (r0 as int),
                        r0 == 0,
                        a as int == -(m as int),
                ;
                lemma_fundamental_div_mod_converse(a as int, b as int, -(q0 as int), 0);
            }
            0
        } else {
            proof {
                assert(a as int == (-(q0 as int) - 1) * (b as int) + ((b as int) - (r0 as int)))
                    by (nonlinear_arith)
                    requires
                        m as int == (b as int) * (q0 as int) + (r0 as int),
                        a as int == -(m as int),
                ;
                lemma_fundamental_div_mod_converse(
                    a as int,
                    b as int,
                    -(q0 as int) - 1,
                    (b as int) - (r0 as int),
                );
            }
            b - (r0 as i64)
        }
    }
}

/// Scaling a non-negative quantity by a ratio of at most one never
/// increases it: `x * a / b <= x` whenever `0 <= a <= b`.
pub proof fn lemma_scale_le(x: int, a: int, b: int)
    requires
        0 <= x,
        0 <= a <= b,
        1 <= b,
    ensures
        0 <= x * a / b <= x,
{
    vstd::arithmetic::mul::lemma_mul_inequality(a, b, x);
    vstd::arithmetic::mul::lemma_mul_is_commutative(a, x);
    vstd::arithmetic::mul::lemma_mul_is_commutative(b, x);
    vstd::arithmetic::div_mod::lemma_div_is_ordered(x * a, x * b, b);
    vstd::arithmetic::div_mod::lemma_div_multiples_vanish(x, b);
    assert(x * b == b * x) by (nonlinear_arith);
    vstd::arithmetic::mul::lemma_mul_nonnegative(x, a);
    vstd::arithmetic::div_mod::lemma_div_pos_is_pos(x * a, b);
}

/// Floor of `a * b / d` for a divisor that dominates `b` in magnitude, so
/// the result never exceeds `a` in magnitude. As everywhere in this crate
/// the specification `/` is Euclidean division.
pub fn mul_div_floor(a: i64, b: i64, d: i64) -> (q: i64)
    requires
        1 <= d,
        -0x4000_0000_0000_0000 <= a <= 0x4000_0000_0000_0000,
        abs_i(b as int) <= d,
    ensures
        q == (a as int * b as int) / (d as int),
        abs_i(q as int) <= abs_i(a as int),
{
    let ma: u128 = if a < 0 {
        (-a) as u128
    } else {
        a as u128
    };
    let mb: u128 = if b < 0 {
        (-b) as u128
    } else {
        b as u128
    };
    proof {
        assert(ma * mb <= 0x4000_0000_0000_0000_0000_0000_0000_0000int) by (nonlinear_arith)
            requires
                0 <= ma as int <= 0x4000_0000_0000_0000,
                0 <= mb as int <= 0x8000_0000_0000_0000,
        ;
    }
    let p: u128 = ma * mb;
    let q0: u128 = p / (d as u128);
    let r0: u128 = p % (d as u128);
    proof {
        lemma_fundamental_div_mod(p as int, d as int);
        vstd::arithmetic::div_mod::lemma_div_pos_is_pos(p as int, d as int);
        lemma_scale_le(ma as int, mb as int, d as int);
        assert(q0 as int == (ma as int) * (mb as int) / (d as int));
    }
    if (a >= 0) == (b >= 0) {
        proof {
            assert(a as int * b as int == p as int) by (nonlinear_arith)
                requires
                    (a as int >= 0 && b as int >= 0 && ma as int == a as int && mb as int
                        == b as int && p as int == (ma as int) * (mb as int)) || ((a as int) < 0
                        && (b as int) < 0 && ma as int == -(a as int) && mb as int == -(b as int)
                        && p as int == (ma as int) * (mb as int)),
            ;
        }
        q0 as i64
    } else {
        proof {
            assert(a as int * b as int == -(p as int)) by (nonlinear_arith)
                requires
                    (a as int >= 0 && (b as int) < 0 && ma as int == a as int && mb as int == -(
                    b as int) && p as int == (ma as int) * (mb as int)) || ((a as int) < 0
                        && b as int >= 0 && ma as int == -(a as int) && mb as int == b as int
                        && p as int == (ma as int) * (mb as int)),
            ;
        }
        if r0 == 0 {
            proof {
                assert(a as int * b as int == (-(q0 as int)) * (d as int) + 0)
                    by (nonlinear_arith)
                    requires
                        p as int == (d as int) * (q0 as int) + (r0 as int),
                        r0 == 0,
                        a as int * b as int == -(p as int),
                ;
                lemma_fundamental_div_mod_converse(
                    a as int * b as int,
                    d as int,
                    -(q0 as int),
                    0,
                );
            }
            -(q0 as i64)
        } else {
            proof {
                assert(a as int * b as int == (-(q0 as int) - 1) * (d as int) + ((d as int) - (
                r0 as int))) by (nonlinear_arith)
                    requires
                        p as int == (d as int) * (q0 as int) + (r0 as int),
                        a as int * b as int == -(p as int),
                ;
                lemma_fundamental_div_mod_converse(
                    a as int * b as int,
                    d as int,
                    -(q0 as int) - 1,
                    (d as int) - (r0 as int),
                );
                if ma == 0 {
                    assert(p as int == 0) by (nonlinear_arith)
                        requires
                            p as int == (ma as int) * (mb as int),
                            ma as int == 0,
                    ;
                    vstd::arithmetic::div_mod::lemma_small_mod(0, d as nat);
                }
                if mb as int == d as int {
                    vstd::arithmetic::mul::lemma_mul_is_commutative(ma as int, d as int);
                    vstd::arithmetic::div_mod::lemma_mod_multiples_basic(ma as int, d as int);
                }
                vstd::arithmetic::mul::lemma_mul_strict_inequality(
                    mb as int,
                    d as int,
                    ma as int,
                );
                vstd::arithmetic::mul::lemma_mul_is_commutative(ma as int, mb as int);
                vstd::arithmetic::mul::lemma_mul_is_commutative(d as int, ma as int);
                vstd::arithmetic::div_mod::lemma_multiply_divide_lt(
                    p as int,
                    d as int,
                    ma as int,
                );
                assert((q0 as int) < ma as int);
            }
            -(q0 as i64) - 1
        }
    }
}

/// The floor of the square root, defined recursively so that specifications
/// can name the value itself.
pub open spec fn sqrt_floor(n: nat) -> nat
    decreases n,
{
    if n == 0 {
        0
    } else {
        let p = sqrt_floor((n - 1) as nat);
        if (p + 1) * (p + 1) <= n {
            p + 1
        } else {
            p
        }
    }
}

/// `sqrt_floor` really is the floor of the square root.
pub proof fn lemma_sqrt_floor_bounds(n: nat)
    ensures
        sqrt_floor(n) * sqrt_floor(n) <= n,
        n < (sqrt_floor(n) + 1) * (sqrt_floor(n) + 1),
    decreases n,
{
    if n > 0 {
        lemma_sqrt_floor_bounds((n - 1) as nat);
        let p = sqrt_floor((n - 1) as nat);
        let s = sqrt_floor(n);
        if (p + 1) * (p + 1) <= n {
            assert(s == p + 1);
            assert(s * s <= n && n < (s + 1) * (s + 1)) by (nonlinear_arith)
                requires
                    s == p + 1,
                    (p + 1) * (p + 1) <= n,
                    n - 1 < (p + 1) * (p + 1),
                    0 <= p,
            ;
        } else {
            assert(s == p);
            assert(s * s <= n && n < (s + 1) * (s + 1)) by (nonlinear_arith)
                requires
                    s == p,
                    p * p <= n - 1,
                    n < (p + 1) * (p + 1),
                    0 <= p,
            ;
        }
    } else {
        assert(sqrt_floor(n) == 0);
        assert(n < (sqrt_floor(n) + 1) * (sqrt_floor(n) + 1)) by (nonlinear_arith)
            requires
                n == 0,
                sqrt_floor(n) == 0,
        ;
    }
}

/// Two integers that both bracket `n` as a square root floor are equal.
proof fn lemma_sqrt_unique(r: int, s: int, n: int)
    by (nonlinear_arith)
    requires
        0 <= r,
        0 <= s,
        r * r <= n < (r + 1) * (r + 1),
        s * s <= n < (s + 1) * (s + 1),
    ensures
        r == s,
{
}

/// Integer square root by binary search: returns the exact floor of the
/// square root of `n`.
pub fn isqrt(n: u128) -> (r: u64)
    ensures
        r == sqrt_floor(n as nat),
{
    let mut lo: u128 = 0;
    let mut hi: u128 = 0x1_0000_0000_0000_0000u128;
    proof {
        assert(0x1_0000_0000_0000_0000int * 0x1_0000_0000_0000_0000int
            == 0x1_0000_0000_0000_0000_0000_0000_0000_0000int) by (nonlinear_arith);
    }
    while lo + 1 < hi
        invariant
            0 <= lo < hi <= 0x1_0000_0000_0000_0000u128,
            lo * lo <= n,
            (n as int) < (hi as int) * (hi as int),
        decreases hi - lo,
    {
        let mid: u128 = lo + (hi - lo) / 2;
        proof {
            assert(mid < 0x1_0000_0000_0000_0000u128);
            assert((mid as int) * (mid as int) < 0x1_0000_0000_0000_0000_0000_0000_0000_0000)
                by (nonlinear_arith)
                requires
                    0 <= (mid as int) < 0x1_0000_0000_0000_0000,
            ;
        }
        if mid * mid <= n {
            lo = mid;
        } else {
            hi = mid;
        }
    }
    proof {
        lemma_sqrt_floor_bounds(n as nat);
        lemma_sqrt_unique(lo as int, sqrt_floor(n as nat) as int, n as int);
    }
    lo as u64
}

/// An angle folded into `[-PI_FP, PI_FP]` by whole turns.
pub open spec fn norm_angle(a: int) -> int
    decreases abs_i(a),
{
    if a > PI_FP {
        norm_angle(a - TWO_PI_FP)
    } else if a < -PI_FP {
        norm_angle(a + TWO_PI_FP)
    } else {
        a
    }
}

/// `norm_angle` lands in range and only moves by whole turns.
pub proof fn lemma_norm_angle_props(a: int)
    ensures
        -PI_FP <= norm_angle(a) <= PI_FP,
        (a - norm_angle(a)) % (TWO_PI_FP as int) == 0,
    decreases abs_i(a),
{
    if a > PI_FP {
        lemma_norm_angle_props(a - TWO_PI_FP);
        let r = norm_angle(a - TWO_PI_FP);
        assert((a - TWO_PI_FP - r) % (TWO_PI_FP as int) == 0);
        vstd::arithmetic::div_mod::lemma_mod_add_multiples_vanish(
            a - TWO_PI_FP - r,
            TWO_PI_FP as int,
        );
    } else if a < -PI_FP {
        lemma_norm_angle_props(a + TWO_PI_FP);
        let r = norm_angle(a + TWO_PI_FP);
        vstd::arithmetic::div_mod::lemma_mod_sub_multiples_vanish(
            a + TWO_PI_FP - r,
            TWO_PI_FP as int,
        );
    } else {
        vstd::arithmetic::div_mod::lemma_small_mod(0, TWO_PI_FP as nat);
    }
}

/// Fold an angle (fixed-point radians) into `[-PI_FP, PI_FP]` by adding or
/// subtracting whole turns.
pub fn normalize_angle(angle: i64) -> (r: i64)
    requires
        -ANGLE_MAX <= angle <= ANGLE_MAX,
    ensures
        r == norm_angle(angle as int),
        -PI_FP <= r <= PI_FP,
{
    let mut a: i64 = angle;
    while a > PI_FP
        invariant
            norm_angle(a as int) == norm_angle(angle as int),
            -ANGLE_MAX <= a,
            a <= ANGLE_MAX,
        decreases abs_i(a as int),
    {
        a = a - TWO_PI_FP;
    }
    while a < -PI_FP
        invariant
            norm_angle(a as int) == norm_angle(angle as int),
            a <= PI_FP,
            -ANGLE_MAX <= a,
        decreases abs_i(a as int),
    {
        a = a + TWO_PI_FP;
    }
    a
}

} // verus!
