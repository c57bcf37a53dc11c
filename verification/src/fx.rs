//! Fixed-point scalar arithmetic.
//!
//! Every geometric quantity in this crate is a fixed-point number: an `i128`
//! holding `SCALE` times its value in world units.  All operations round
//! toward zero, and each executable operation is proved to return exactly the
//! value of its specification-level counterpart.

use vstd::prelude::*;

verus! {

use vstd::arithmetic::div_mod::lemma_div_nonincreasing;
use vstd::arithmetic::div_mod::lemma_div_pos_is_pos;

/// Fixed-point scale: a scalar `x` stands for the real number `x / SCALE`.
pub const SCALE: i128 = 65536;

/// Magnitude bound for scene coordinates (2^31): centers, radii, ray origins
/// and directions handed to the intersection routines stay within this bound,
/// which keeps every intermediate product inside `i128`.
pub const COORD_MAX: i128 = 0x8000_0000;

/// Magnitude bound for ray parameters (2^40).
pub const T_MAX_BOUND: i128 = 0x100_0000_0000;

pub open spec fn iabs(a: int) -> int {
    if a >= 0 {
        a
    } else {
        -a
    }
}

/// Division rounding toward zero, as Rust's `/` does on machine integers.
pub open spec fn tzdiv(a: int, b: int) -> int
    recommends
        b != 0,
{
    if (a >= 0) == (b >= 0) {
        iabs(a) / iabs(b)
    } else {
        -(iabs(a) / iabs(b))
    }
}

/// Division rounding toward negative infinity: the floor of the exact
/// quotient, so a strictly negative quotient never rounds up to zero.
pub open spec fn fdiv(a: int, b: int) -> int
    recommends
        b != 0,
{
    if b >= 0 {
        a / b
    } else {
        (-a) / (-b)
    }
}

/// Fixed-point quotient rounding toward negative infinity:
/// `floor(a * SCALE / b)`.
pub open spec fn fx_fdiv_spec(a: int, b: int) -> int
    recommends
        b != 0,
{
    fdiv(a * SCALE as int, b)
}

/// Fixed-point product: `(a * b) / SCALE`, rounded toward zero.
pub open spec fn fx_mul_spec(a: int, b: int) -> int {
    tzdiv(a * b, SCALE as int)
}

/// Fixed-point quotient: `(a * SCALE) / b`, rounded toward zero.
pub open spec fn fx_div_spec(a: int, b: int) -> int
    recommends
        b != 0,
{
    tzdiv(a * SCALE as int, b)
}

/// The integer square root: the greatest `r` with `r * r <= n`.
pub open spec fn sqrt_floor(n: nat) -> nat
    decreases n,
{
    if n == 0 {
        0
    } else {
        let p = sqrt_floor((n - 1) as nat);
        if (p + 1) * (p + 1) <= n {
            (p + 1) as nat
        } else {
            p
        }
    }
}

pub proof fn lemma_sqrt_floor_bounds(n: nat)
    ensures
        sqrt_floor(n) * sqrt_floor(n) <= n,
        n < (sqrt_floor(n) + 1) * (sqrt_floor(n) + 1),
    decreases n,
{
    let s = sqrt_floor(n);
    if n == 0 {
        assert(s == 0);
        assert(n < (s + 1) * (s + 1)) by (nonlinear_arith)
            requires
                n == 0,
                s == 0,
        ;
    } else {
        let p = sqrt_floor((n - 1) as nat);
        lemma_sqrt_floor_bounds((n - 1) as nat);
        assert(s == if (p + 1) * (p + 1) <= n {
            (p + 1) as nat
        } else {
            p
        });
        if (p + 1) * (p + 1) <= n {
            assert(s * s <= n) by (nonlinear_arith)
                requires
                    s == p + 1,
                    (p + 1) * (p + 1) <= n,
            ;
            assert(n < (s + 1) * (s + 1)) by (nonlinear_arith)
                requires
                    s == p + 1,
                    p >= 0,
                    n - 1 < (p + 1) * (p + 1),
            ;
        } else {
            assert(s * s <= n) by (nonlinear_arith)
                requires
                    s == p,
                    p * p <= n - 1,
            ;
            assert(n < (s + 1) * (s + 1)) by (nonlinear_arith)
                requires
                    s == p,
                    !((p + 1) * (p + 1) <= n),
            ;
        }
    }
}

pub proof fn lemma_sqrt_floor_unique(n: nat, r: nat)
    requires
        r * r <= n,
        n < (r + 1) * (r + 1),
    ensures
        r == sqrt_floor(n),
{
    lemma_sqrt_floor_bounds(n);
    let s = sqrt_floor(n);
    if r < s {
        assert((r + 1) * (r + 1) <= s * s) by (nonlinear_arith)
            requires
                r + 1 <= s,
        ;
    }
    if s < r {
        assert((s + 1) * (s + 1) <= r * r) by (nonlinear_arith)
            requires
                s + 1 <= r,
        ;
    }
}

/// Truncating division on `i128`, matching `tzdiv` exactly.
pub fn tz_div(a: i128, b: i128) -> (r: i128)
    requires
        b != 0,
        a > i128::MIN,
        b > i128::MIN,
    ensures
        r == tzdiv(a as int, b as int),
        iabs(r as int) <= iabs(a as int),
{
    let an: u128 = if a >= 0 {
        a as u128
    } else {
        (-a) as u128
    };
    let bn: u128 = if b >= 0 {
        b as u128
    } else {
        (-b) as u128
    };
    let q: u128 = an / bn;
    proof {
        assert(an == iabs(a as int));
        assert(bn == iabs(b as int));
        lemma_div_nonincreasing(an as int, bn as int);
        lemma_div_pos_is_pos(an as int, bn as int);
    }
    if (a >= 0) == (b >= 0) {
        q as i128
    } else {
        -(q as i128)
    }
}

/// Flooring division on `i128`, matching `fdiv` exactly.
pub fn floor_div(a: i128, b: i128) -> (r: i128)
    requires
        b != 0,
        a > i128::MIN,
        b > i128::MIN,
    ensures
        r == fdiv(a as int, b as int),
        iabs(r as int) <= iabs(a as int) + 1,
{
    let an: u128 = if a >= 0 {
        a as u128
    } else {
        (-a) as u128
    };
    let bn: u128 = if b >= 0 {
        b as u128
    } else {
        (-b) as u128
    };
    let q: u128 = an / bn;
    let rem: u128 = an % bn;
    proof {
        assert(an == iabs(a as int));
        assert(bn == iabs(b as int));
        lemma_div_nonincreasing(an as int, bn as int);
        lemma_div_pos_is_pos(an as int, bn as int);
        vstd::arithmetic::div_mod::lemma_mod_division_less_than_divisor(an as int, bn as int);
        vstd::arithmetic::div_mod::lemma_fundamental_div_mod(an as int, bn as int);
    }
    if (a >= 0) == (b >= 0) {
        proof {
            if a >= 0 && b >= 0 {
                assert(fdiv(a as int, b as int) == an as int / bn as int);
            } else {
                assert(fdiv(a as int, b as int) == an as int / bn as int);
            }
        }
        q as i128
    } else if rem == 0 {
        proof {
            lemma_fdiv_negated_exact(an as int, bn as int, q as int);
            assert(iabs(a as int) == an);
        }
        -(q as i128)
    } else {
        proof {
            lemma_fdiv_negated_inexact(an as int, bn as int, q as int, rem as int);
        }
        -(q as i128) - 1
    }
}

/// When the magnitudes divide exactly, the floored quotient of a negated
/// pair is the negated magnitude quotient.
proof fn lemma_fdiv_negated_exact(an: int, bn: int, q: int)
    requires
        an >= 0,
        bn >= 1,
        q == an / bn,
        an % bn == 0,
    ensures
        (-an) / bn == -q,
{
    vstd::arithmetic::div_mod::lemma_fundamental_div_mod(an, bn);
    assert((-an) == (-q) * bn + 0) by (nonlinear_arith)
        requires
            an == bn * q,
    ;
    vstd::arithmetic::div_mod::lemma_fundamental_div_mod_converse(-an, bn, -q, 0);
}

/// When the magnitudes do not divide exactly, flooring moves one below the
/// negated magnitude quotient.
proof fn lemma_fdiv_negated_inexact(an: int, bn: int, q: int, rem: int)
    requires
        an >= 0,
        bn >= 1,
        q == an / bn,
        rem == an % bn,
        1 <= rem < bn,
    ensures
        (-an) / bn == -q - 1,
{
    vstd::arithmetic::div_mod::lemma_fundamental_div_mod(an, bn);
    assert((-an) == (-q - 1) * bn + (bn - rem)) by (nonlinear_arith)
        requires
            an == bn * q + rem,
    ;
    vstd::arithmetic::div_mod::lemma_fundamental_div_mod_converse(-an, bn, -q - 1, bn - rem);
}

/// The floored scaled quotient, for the slab test.
pub fn fx_fdiv(a: i128, b: i128) -> (r: i128)
    requires
        b != 0,
        b > i128::MIN,
        iabs(a as int) * (SCALE as int) < i128::MAX,
    ensures
        r == fx_fdiv_spec(a as int, b as int),
        iabs(r as int) <= iabs(a as int) * (SCALE as int) + 1,
{
    proof {
        assert(iabs(a as int * SCALE as int) == iabs(a as int) * (SCALE as int))
            by (nonlinear_arith);
    }
    let p: i128 = a * SCALE;
    floor_div(p, b)
}

/// A scaled multiple floors back exactly.
pub proof fn lemma_fdiv_exact(x: int)
    ensures
        fdiv(x * SCALE as int, SCALE as int) == x,
{
    assert(x * SCALE as int == x * (SCALE as int) + 0) by (nonlinear_arith);
    vstd::arithmetic::div_mod::lemma_fundamental_div_mod_converse(
        x * SCALE as int,
        SCALE as int,
        x,
        0,
    );
}

/// A positive numerator over a negative denominator floors to minus one or
/// below; a negative numerator over a positive denominator likewise.
pub proof fn lemma_fdiv_strictly_negative(a: int, b: int)
    requires
        b != 0,
        (a >= 1 && b <= -1) || (a <= -1 && b >= 1),
    ensures
        fdiv(a, b) <= -1,
{
    if a >= 1 && b <= -1 {
        vstd::arithmetic::div_mod::lemma_div_is_ordered(-a, -1, -b);
        lemma_neg_one_div(-b);
    } else {
        vstd::arithmetic::div_mod::lemma_div_is_ordered(a, -1, b);
        lemma_neg_one_div(b);
    }
}

proof fn lemma_neg_one_div(d: int)
    requires
        d >= 1,
    ensures
        (-1) / d == -1,
{
    assert(-1 == (-1) * d + (d - 1)) by (nonlinear_arith);
    vstd::arithmetic::div_mod::lemma_fundamental_div_mod_converse(-1, d, -1, d - 1);
}

/// Fixed-point multiplication.
pub fn fx_mul(a: i128, b: i128) -> (r: i128)
    requires
        iabs(a as int) * iabs(b as int) < i128::MAX,
    ensures
        r == fx_mul_spec(a as int, b as int),
        iabs(r as int) <= iabs(a as int) * iabs(b as int) / (SCALE as int),
{
    proof {
        assert(iabs(a as int * b as int) == iabs(a as int) * iabs(b as int)) by (nonlinear_arith);
    }
    let p: i128 = a * b;
    let r = tz_div(p, SCALE);
    proof {
        assert(iabs(r as int) == iabs(p as int) / (SCALE as int));
    }
    r
}

/// Fixed-point division.
pub fn fx_div(a: i128, b: i128) -> (r: i128)
    requires
        b != 0,
        b > i128::MIN,
        iabs(a as int) * (SCALE as int) < i128::MAX,
    ensures
        r == fx_div_spec(a as int, b as int),
        iabs(r as int) <= iabs(a as int) * (SCALE as int),
{
    proof {
        assert(iabs(a as int * SCALE as int) == iabs(a as int) * (SCALE as int))
            by (nonlinear_arith);
    }
    let p: i128 = a * SCALE;
    tz_div(p, b)
}

/// Integer square root on `u128`.
pub fn isqrt(n: u128) -> (r: u128)
    ensures
        r == sqrt_floor(n as nat),
        r * r <= n,
        n < (r + 1) * (r + 1),
{
    let mut lo: u128 = 0;
    let mut hi: u128 = 0x1_0000_0000_0000_0000;
    proof {
        assert(hi * hi > n) by (nonlinear_arith)
            requires
                hi == 0x1_0000_0000_0000_0000,
                n < 0x1_0000_0000_0000_0000_0000_0000_0000_0000,
        ;
    }
    while hi - lo > 1
        invariant
            lo < hi,
            hi <= 0x1_0000_0000_0000_0000,
            lo * lo <= n,
            n < hi * hi,
        decreases hi - lo,
    {
        let mid: u128 = lo + (hi - lo) / 2;
        proof {
            assert(mid < hi);
            assert(mid * mid < 0x1_0000_0000_0000_0000_0000_0000_0000_0000) by (nonlinear_arith)
                requires
                    mid < 0x1_0000_0000_0000_0000,
            ;
        }
        if mid * mid <= n {
            lo = mid;
        } else {
            hi = mid;
        }
    }
    proof {
        lemma_sqrt_floor_unique(n as nat, lo as nat);
    }
    lo
}

/// `0 <= fx_mul_spec(u, d) <= d` whenever `0 <= u <= SCALE` and `d >= 0`.
pub proof fn lemma_fx_mul_unit_range(u: int, d: int)
    requires
        0 <= u <= SCALE as int,
        0 <= d,
    ensures
        0 <= fx_mul_spec(u, d) <= d,
{
    assert(0 <= u * d <= (SCALE as int) * d) by (nonlinear_arith)
        requires
            0 <= u <= SCALE as int,
            0 <= d,
    ;
    vstd::arithmetic::div_mod::lemma_div_pos_is_pos(u * d, SCALE as int);
    vstd::arithmetic::div_mod::lemma_div_is_ordered(u * d, (SCALE as int) * d, SCALE as int);
    vstd::arithmetic::div_mod::lemma_div_multiples_vanish(d, SCALE as int);
    assert(fx_mul_spec(u, d) == u * d / (SCALE as int));
}

/// Magnitude bounds multiply through a product.
pub proof fn lemma_abs_mul_bound(a: int, b: int, ba: int, bb: int)
    requires
        iabs(a) <= ba,
        iabs(b) <= bb,
        0 <= ba,
        0 <= bb,
    ensures
        iabs(a * b) <= ba * bb,
        iabs(a) * iabs(b) <= ba * bb,
{
    assert(iabs(a * b) == iabs(a) * iabs(b)) by (nonlinear_arith);
    assert(iabs(a) * iabs(b) <= ba * bb) by (nonlinear_arith)
        requires
            0 <= iabs(a) <= ba,
            0 <= iabs(b) <= bb,
    ;
}

/// The magnitude of a truncating quotient is the quotient of magnitudes, and
/// is monotone in the numerator bound.
pub proof fn lemma_tzdiv_le_bound(a: int, d: int, b: int)
    requires
        d >= 1,
        iabs(a) <= b,
    ensures
        iabs(tzdiv(a, d)) == iabs(a) / d,
        iabs(tzdiv(a, d)) <= b / d,
        iabs(tzdiv(a, d)) <= iabs(a),
        iabs(tzdiv(a, d)) * d <= iabs(a),
{
    let q = iabs(a) / d;
    vstd::arithmetic::div_mod::lemma_div_pos_is_pos(iabs(a), d);
    vstd::arithmetic::div_mod::lemma_fundamental_div_mod(iabs(a), d);
    vstd::arithmetic::div_mod::lemma_mod_division_less_than_divisor(iabs(a), d);
    vstd::arithmetic::div_mod::lemma_div_is_ordered(iabs(a), b, d);
    lemma_div_nonincreasing(iabs(a), d);
}

/// Clamps `number` into `[min, max]`.
pub fn clamp(number: i128, min: i128, max: i128) -> (r: i128)
    requires
        min <= max,
    ensures
        r == clamp_spec(number as int, min as int, max as int),
{
    let mut res = number;
    if number < min {
        res = min
    } else if number > max {
        res = max
    }
    res
}

pub open spec fn clamp_spec(number: int, min: int, max: int) -> int {
    if number < min {
        min
    } else if number > max {
        max
    } else {
        number
    }
}

} // verus!
