//! The cube root. The radicand `mantissa * 10^J` has about fifty digits, so
//! it is consumed as a stream of three-digit groups by the classical
//! digit-by-digit cube-root algorithm; the exponent residue modulo three
//! picks `J`, the exact counterpart of the cube-root-of-ten mantissa
//! corrections, and the exponent is divided by three rounding down.

use vstd::prelude::*;

use crate::base10::{lemma_pow10_adds, lemma_pow10_increases, lemma_pow10_values, pow10};
use crate::decimal::{normalize_raw, spec_nan, spec_normalize, spec_zero, Decimal};

verus! {

/// The integer cube root, rounded down.
pub open spec fn cbrt_floor(x: nat) -> nat
    decreases x,
{
    if x == 0 {
        0
    } else {
        let r = 2 * cbrt_floor(x / 8);
        if (r + 1) * (r + 1) * (r + 1) <= x {
            r + 1
        } else {
            r
        }
    }
}

/// The integer cube root, rounded to nearest. The midpoint comparison is
/// between odd and even quantities, so no tie rule is needed.
pub open spec fn cbrt_rounded(x: nat) -> nat {
    let c = cbrt_floor(x);
    if 2 * (x - c * c * c) > 3 * c * c + 3 * c + 1 {
        c + 1
    } else {
        c
    }
}

/// What appending the digit `d` to a partial root `y` costs the remainder.
pub open spec fn cbrt_step_cost(y: int, d: int) -> int {
    d * (300 * y * y + 30 * y * d + d * d)
}

/// `cbrt_floor` brackets the true root.
pub proof fn lemma_cbrt_floor_correct(x: nat)
    ensures
        cbrt_floor(x) * cbrt_floor(x) * cbrt_floor(x) <= x,
        x < (cbrt_floor(x) + 1) * (cbrt_floor(x) + 1) * (cbrt_floor(x) + 1),
    decreases x,
{
    if x > 0 {
        lemma_cbrt_floor_correct(x / 8);
        let h = cbrt_floor(x / 8);
        let r = 2 * h;
        vstd::arithmetic::div_mod::lemma_fundamental_div_mod(x as int, 8);
        assert(r * r * r <= x) by (nonlinear_arith)
            requires
                h * h * h <= x / 8,
                r == 2 * h,
                8 * (x / 8) <= x,
        ;
        assert(x < (r + 2) * (r + 2) * (r + 2)) by (nonlinear_arith)
            requires
                x / 8 < (h + 1) * (h + 1) * (h + 1),
                r == 2 * h,
                x <= 8 * (x / 8) + 7,
        ;
        if (r + 1) * (r + 1) * (r + 1) <= x {
            assert(cbrt_floor(x) == r + 1);
        } else {
            assert(cbrt_floor(x) == r);
        }
    } else {
        assert(cbrt_floor(x) == 0);
        vstd::arithmetic::mul::lemma_mul_basics(1);
        assert(cbrt_floor(x) * cbrt_floor(x) * cbrt_floor(x) <= x) by {
            vstd::arithmetic::mul::lemma_mul_basics(0);
        }
        assert(x < (cbrt_floor(x) + 1) * (cbrt_floor(x) + 1) * (cbrt_floor(x) + 1));
    }
}

/// The bracket determines the rounded-down root uniquely.
pub proof fn lemma_cbrt_floor_unique(x: nat, y: nat)
    requires
        y * y * y <= x,
        x < (y + 1) * (y + 1) * (y + 1),
    ensures
        y == cbrt_floor(x),
{
    lemma_cbrt_floor_correct(x);
    let c = cbrt_floor(x);
    if c < y {
        assert((c + 1) * (c + 1) * (c + 1) <= y * y * y) by (nonlinear_arith)
            requires
                0 <= c + 1 <= y,
        ;
        assert(false);
    }
    if c > y {
        assert((y + 1) * (y + 1) * (y + 1) <= c * c * c) by (nonlinear_arith)
            requires
                0 <= y + 1 <= c,
        ;
        assert(false);
    }
}

/// The cost of appending the digit, executably.
fn step_cost(y: u128, d: u32) -> (t: u128)
    requires
        y <= pow10(17),
        d <= 9,
    ensures
        t == cbrt_step_cost(y as int, d as int),
{
    proof {
        lemma_pow10_values();
        lemma_pow10_adds(17, 17);
        assert(y * y <= pow10(17) * pow10(17)) by (nonlinear_arith)
            requires
                0 <= y <= pow10(17),
        ;
        assert(y * (d as u128) <= pow10(17) * 9) by (nonlinear_arith)
            requires
                0 <= y <= pow10(17),
                0 <= d <= 9,
        ;
        assert((d as u128) * (d as u128) <= 81) by (nonlinear_arith)
            requires
                0 <= d <= 9,
        ;
    }
    let yy: u128 = y * y;
    let yd: u128 = y * (d as u128);
    let dd: u128 = (d as u128) * (d as u128);
    let sum: u128 = 300 * yy + 30 * yd + dd;
    proof {
        assert((d as u128) * sum <= 9 * sum) by (nonlinear_arith)
            requires
                0 <= d <= 9,
                0 <= sum,
        ;
    }
    let t: u128 = (d as u128) * sum;
    proof {
        assert(t == cbrt_step_cost(y as int, d as int)) by (nonlinear_arith)
            requires
                t == (d as int) * (300 * ((y as int) * y) + 30 * ((y as int) * (d as int)) + (
                d as int) * d),
                cbrt_step_cost(y as int, d as int) == (d as int) * (300 * (y as int) * y + 30 * (
                y as int) * d + (d as int) * d),
        ;
    }
    t
}

/// Appending a digit to a partial root expands the cube by the step cost.
proof fn lemma_cube_expand(y: int, d: int)
    ensures
        (10 * y + d) * (10 * y + d) * (10 * y + d) == 1000 * (y * y * y) + cbrt_step_cost(y, d),
{
    assert((10 * y + d) * (10 * y + d) * (10 * y + d) == 1000 * (y * y * y) + d * (300 * y * y
        + 30 * y * d + d * d)) by (nonlinear_arith);
}

/// The cube of a successor.
proof fn lemma_cube_succ(y: int)
    ensures
        (y + 1) * (y + 1) * (y + 1) == y * y * y + 3 * (y * y) + 3 * y + 1,
{
    assert((y + 1) * (y + 1) * (y + 1) == y * y * y + 3 * (y * y) + 3 * y + 1)
        by (nonlinear_arith);
}

/// The largest digit whose cost fits the remainder.
fn pick_digit(y: u128, rb: u128) -> (d: u32)
    requires
        y <= pow10(17),
    ensures
        d <= 9,
        cbrt_step_cost(y as int, d as int) <= rb,
        d < 9 ==> cbrt_step_cost(y as int, d as int + 1) > rb,
{
    let mut d: u32 = 9;
    let mut td: u128 = step_cost(y, 9);
    while td > rb
        invariant
            d <= 9,
            y <= pow10(17),
            td == cbrt_step_cost(y as int, d as int),
            d < 9 ==> cbrt_step_cost(y as int, d as int + 1) > rb,
        decreases d,
    {
        proof {
            if d == 0 {
                assert(cbrt_step_cost(y as int, 0) == 0) by (nonlinear_arith);
                assert(false);
            }
        }
        d = d - 1;
        td = step_cost(y, d);
    }
    d
}

/// One three-digit group of the radicand `mag * 10^j`, counted from the top:
/// the group whose trailing shift is `s`.
fn group_of(mag: u128, j: u32, s: u32) -> (g: u128)
    requires
        1 <= mag < pow10(17),
        32 <= j <= 34,
        s % 3 == 0,
        s <= 48,
    ensures
        g == ((mag * pow10(j as nat)) / pow10(s as nat)) % 1000,
        g < 1000,
{
    proof {
        lemma_pow10_values();
        vstd::arithmetic::div_mod::lemma_mod_bound(
            ((mag * pow10(j as nat)) / pow10(s as nat)) as int,
            1000,
        );
    }
    if s >= j {
        let p: u128 = crate::base10::pow10_i128(s - j) as u128;
        proof {
            lemma_pow10_increases((s - j) as nat, 16);
            lemma_div_of_scaled(mag as int, j as nat, s as nat);
        }
        (mag / p) % 1000
    } else {
        let diff: u32 = j - s;
        proof {
            lemma_mul_of_scaled(mag as int, j as nat, s as nat);
        }
        if diff == 1 {
            proof {
                lemma_shift_mod_1000(mag as int, 1);
            }
            (mag % 100) * 10
        } else if diff == 2 {
            proof {
                lemma_shift_mod_1000(mag as int, 2);
            }
            (mag % 10) * 100
        } else {
            proof {
                lemma_shift_mod_1000_zero(mag as int, diff as nat);
            }
            0
        }
    }
}

/// Dividing a scaled value by a larger power of ten divides the value.
proof fn lemma_div_of_scaled(a: int, j: nat, s: nat)
    requires
        a >= 0,
        s >= j,
    ensures
        (a * pow10(j)) / pow10(s) == a / pow10((s - j) as nat),
{
    crate::base10::lemma_pow10_positive(j);
    crate::base10::lemma_pow10_positive((s - j) as nat);
    lemma_pow10_adds(j, (s - j) as nat);
    assert((a * pow10(j)) / (pow10(j) * pow10((s - j) as nat)) == ((a * pow10(j)) / pow10(j))
        / pow10((s - j) as nat)) by {
        vstd::arithmetic::div_mod::lemma_div_denominator(
            a * pow10(j),
            pow10(j),
            pow10((s - j) as nat),
        );
    }
    assert((a * pow10(j)) / pow10(j) == a) by {
        vstd::arithmetic::div_mod::lemma_div_multiples_vanish(a, pow10(j));
        vstd::arithmetic::mul::lemma_mul_is_commutative(a, pow10(j));
    }
}

/// Dividing a scaled value by a smaller power of ten leaves a scaled value.
proof fn lemma_mul_of_scaled(a: int, j: nat, s: nat)
    requires
        a >= 0,
        s <= j,
    ensures
        (a * pow10(j)) / pow10(s) == a * pow10((j - s) as nat),
{
    crate::base10::lemma_pow10_positive(s);
    crate::base10::lemma_pow10_positive((j - s) as nat);
    lemma_pow10_adds((j - s) as nat, s);
    assert(a * pow10(j) == (a * pow10((j - s) as nat)) * pow10(s)) by {
        vstd::arithmetic::mul::lemma_mul_is_associative(a, pow10((j - s) as nat), pow10(s));
    }
    assert(((a * pow10((j - s) as nat)) * pow10(s)) / pow10(s) == a * pow10((j - s) as nat)) by {
        vstd::arithmetic::div_mod::lemma_div_multiples_vanish(
            a * pow10((j - s) as nat),
            pow10(s),
        );
        vstd::arithmetic::mul::lemma_mul_is_commutative(a * pow10((j - s) as nat), pow10(s));
    }
}

/// The bottom three digits of a value shifted by one or two places.
proof fn lemma_shift_mod_1000(a: int, k: nat)
    requires
        a >= 0,
        1 <= k <= 2,
    ensures
        k == 1 ==> (a * pow10(1)) % 1000 == (a % 100) * 10,
        k == 2 ==> (a * pow10(2)) % 1000 == (a % 10) * 100,
{
    lemma_pow10_values();
    if k == 1 {
        let q = a / 100;
        let r = a % 100;
        vstd::arithmetic::div_mod::lemma_fundamental_div_mod(a, 100);
        assert(a * 10 == 1000 * q + 10 * r) by (nonlinear_arith)
            requires
                a == 100 * q + r,
        ;
        vstd::arithmetic::div_mod::lemma_fundamental_div_mod_converse(
            a * 10,
            1000,
            q,
            10 * r,
        );
    } else {
        let q = a / 10;
        let r = a % 10;
        vstd::arithmetic::div_mod::lemma_fundamental_div_mod(a, 10);
        assert(a * 100 == 1000 * q + 100 * r) by (nonlinear_arith)
            requires
                a == 10 * q + r,
        ;
        vstd::arithmetic::div_mod::lemma_fundamental_div_mod_converse(
            a * 100,
            1000,
            q,
            100 * r,
        );
    }
}

/// A shift of three or more places clears the bottom three digits.
proof fn lemma_shift_mod_1000_zero(a: int, k: nat)
    requires
        a >= 0,
        k >= 3,
    ensures
        (a * pow10(k)) % 1000 == 0,
{
    lemma_pow10_values();
    assert(pow10(k) == pow10((k - 3) as nat) * pow10(3)) by {
        lemma_pow10_adds((k - 3) as nat, 3);
    }
    assert(pow10(3) == 1000) by {
        reveal_with_fuel(pow10, 4);
    }
    assert(a * pow10(k) == (a * pow10((k - 3) as nat)) * 1000) by {
        vstd::arithmetic::mul::lemma_mul_is_associative(a, pow10((k - 3) as nat), 1000);
    }
    vstd::arithmetic::div_mod::lemma_mod_multiples_basic(a * pow10((k - 3) as nat), 1000);
}

/// The digit-by-digit cube root of the radicand `mag * 10^j`, rounded to
/// nearest, consuming the radicand as seventeen three-digit groups.
fn cbrt_stream(mag: u128, j: u32) -> (s: u128)
    requires
        pow10(16) <= mag < pow10(17),
        32 <= j <= 34,
    ensures
        s == cbrt_rounded((mag * pow10(j as nat)) as nat),
        s <= pow10(17),
{
    proof {
        lemma_pow10_values();
    }
    let ghost radicand: int = mag * pow10(j as nat);
    proof {
        assert(radicand >= 0) by {
            crate::base10::lemma_pow10_positive(j as nat);
            vstd::arithmetic::mul::lemma_mul_nonnegative(mag as int, pow10(j as nat));
        }
        assert(radicand < pow10(51)) by {
            lemma_pow10_increases(j as nat, 34);
            lemma_pow10_adds(17, 34);
            assert(mag * pow10(j as nat) <= mag * pow10(34)) by {
                vstd::arithmetic::mul::lemma_mul_left_inequality(
                    mag as int,
                    pow10(j as nat),
                    pow10(34),
                );
            }
            assert(mag * pow10(34) < pow10(17) * pow10(34)) by {
                vstd::arithmetic::mul::lemma_mul_strict_inequality(
                    mag as int,
                    pow10(17),
                    pow10(34),
                );
            }
        }
        assert(radicand / pow10(51) == 0) by {
            crate::base10::lemma_pow10_positive(51);
            vstd::arithmetic::div_mod::lemma_basic_div(radicand, pow10(51));
        }
    }
    let mut y: u128 = 0;
    let mut rem: u128 = 0;
    let mut i: u32 = 0;
    while i < 17
        invariant
            0 <= i <= 17,
            pow10(16) <= mag < pow10(17),
            32 <= j <= 34,
            radicand == mag * pow10(j as nat),
            y < pow10(i as nat),
            y * y * y + rem == radicand / pow10((3 * (17 - i)) as nat),
            rem <= 3 * (y * y) + 3 * y,
        decreases 17 - i,
    {
        proof {
            lemma_pow10_values();
            lemma_pow10_increases(i as nat, 17);
        }
        let s_exp: u32 = 3 * (16 - i);
        let g: u128 = group_of(mag, j, s_exp);
        let ghost p_cur: int = radicand / pow10((3 * (17 - i)) as nat);
        let ghost p_next: int = radicand / pow10(s_exp as nat);
        proof {
            lemma_group_unfold(radicand, (17 - i) as nat);
            assert(p_next == 1000 * p_cur + g);
            assert(rem * 1000 <= (3 * (y * y) + 3 * y) * 1000) by {
                vstd::arithmetic::mul::lemma_mul_inequality(
                    rem as int,
                    3 * (y * y) + 3 * y,
                    1000,
                );
            }
            assert(y * y <= pow10(17) * pow10(17)) by (nonlinear_arith)
                requires
                    0 <= y <= pow10(17),
            ;
            lemma_pow10_adds(17, 17);
        }
        let rb: u128 = rem * 1000 + g;
        let d: u32 = pick_digit(y, rb);
        let td: u128 = step_cost(y, d);
        let ghost y2: int = 10 * y + d;
        proof {
            lemma_cube_expand(y as int, d as int);
            lemma_cube_succ(y2);
            assert(1000 * ((y as int) * y * y) + rb == p_next);
            assert(y2 * y2 * y2 == 1000 * ((y as int) * y * y) + td);
            if d < 9 {
                lemma_cube_expand(y as int, d as int + 1);
                assert((y2 + 1) * (y2 + 1) * (y2 + 1) == 1000 * ((y as int) * y * y)
                    + cbrt_step_cost(y as int, d as int + 1));
                assert(p_next < (y2 + 1) * (y2 + 1) * (y2 + 1));
            } else {
                lemma_cube_succ(y as int);
                lemma_cube_expand(y as int + 1, 0);
                assert(cbrt_step_cost(y as int + 1, 0) == 0) by (nonlinear_arith);
                assert((y2 + 1) * (y2 + 1) * (y2 + 1) == 1000 * (((y as int) + 1) * ((
                y as int) + 1) * ((y as int) + 1))) by {
                    assert(y2 + 1 == 10 * ((y as int) + 1));
                }
                assert(p_cur < ((y as int) + 1) * ((y as int) + 1) * ((y as int) + 1));
                assert(p_next <= 1000 * p_cur + 999);
                assert(1000 * (p_cur + 1) <= 1000 * (((y as int) + 1) * ((y as int) + 1) * ((
                y as int) + 1))) by {
                    vstd::arithmetic::mul::lemma_mul_inequality(
                        p_cur + 1,
                        ((y as int) + 1) * ((y as int) + 1) * ((y as int) + 1),
                        1000,
                    );
                    vstd::arithmetic::mul::lemma_mul_is_commutative(p_cur + 1, 1000);
                    vstd::arithmetic::mul::lemma_mul_is_commutative(
                        ((y as int) + 1) * ((y as int) + 1) * ((y as int) + 1),
                        1000,
                    );
                }
                assert(p_next < (y2 + 1) * (y2 + 1) * (y2 + 1));
            }
            assert(p_next - y2 * y2 * y2 <= 3 * (y2 * y2) + 3 * y2);
            assert(10 * y + d < 10 * pow10(i as nat)) by {
                vstd::arithmetic::mul::lemma_mul_strict_inequality(
                    y as int,
                    pow10(i as nat),
                    10,
                );
                vstd::arithmetic::mul::lemma_mul_is_commutative(y as int, 10);
                vstd::arithmetic::mul::lemma_mul_is_commutative(pow10(i as nat), 10);
            }
            assert(10 * pow10(i as nat) == pow10((i + 1) as nat)) by {
                reveal_with_fuel(pow10, 1);
            }
        }
        y = 10 * y + (d as u128);
        rem = rb - td;
        i = i + 1;
    }
    proof {
        assert(radicand / pow10(0) == radicand) by {
            vstd::arithmetic::div_mod::lemma_div_basics_1(radicand);
        }
        assert((y as int) * y * y <= radicand);
        assert(radicand < (y + 1) * ((y as int) + 1) * ((y as int) + 1)) by (nonlinear_arith)
            requires
                (y as int) * y * y + rem == radicand,
                rem <= 3 * ((y as int) * y) + 3 * y,
                0 <= y,
        ;
        lemma_cbrt_floor_unique(radicand as nat, y as nat);
        if y == pow10(17) {
            lemma_pow10_adds(17, 17);
            lemma_pow10_adds(34, 17);
            assert((y as int) * y * y == pow10(51)) by (nonlinear_arith)
                requires
                    y == pow10(17),
                    pow10(17) * pow10(17) == pow10(34),
                    pow10(34) * pow10(17) == pow10(51),
            ;
            assert(false);
        }
    }
    proof {
        lemma_pow10_adds(17, 17);
        assert(y * y <= pow10(17) * pow10(17)) by (nonlinear_arith)
            requires
                0 <= y <= pow10(17),
        ;
        vstd::arithmetic::mul::lemma_mul_is_associative(3, y as int, y as int);
    }
    let bound: u128 = 3 * (y * y) + 3 * y + 1;
    if 2 * rem > bound {
        y + 1
    } else {
        y
    }
}

/// Pulling one more three-digit group into the running prefix.
proof fn lemma_group_unfold(x: int, k: nat)
    requires
        x >= 0,
        k >= 1,
    ensures
        x / pow10((3 * (k - 1)) as nat) == 1000 * (x / pow10((3 * k) as nat)) + ((x / pow10(
            (3 * (k - 1)) as nat,
        )) % 1000),
{
    crate::base10::lemma_pow10_positive((3 * (k - 1)) as nat);
    crate::base10::lemma_pow10_positive((3 * k) as nat);
    let pn = x / pow10((3 * (k - 1)) as nat);
    assert(pn / 1000 == x / pow10((3 * k) as nat)) by {
        assert(pow10((3 * k) as nat) == pow10((3 * (k - 1)) as nat) * 1000) by {
            lemma_pow10_adds((3 * (k - 1)) as nat, 3);
            assert(pow10(3) == 1000) by {
                reveal_with_fuel(pow10, 4);
            }
        }
        vstd::arithmetic::div_mod::lemma_div_denominator(
            x,
            pow10((3 * (k - 1)) as nat),
            1000,
        );
    }
    assert(pn >= 0) by {
        vstd::arithmetic::div_mod::lemma_div_pos_is_pos(x, pow10((3 * (k - 1)) as nat));
    }
    vstd::arithmetic::div_mod::lemma_fundamental_div_mod(pn, 1000);
}

/// The cube root: NaN stays NaN, zero stays zero, and otherwise the
/// seventeen-digit root of the mantissa — with the exponent's residue modulo
/// three folded into the radicand — at a third of the exponent, rounded
/// down.
pub open spec fn spec_cbrt(a: Decimal) -> Decimal {
    if a.nan {
        spec_nan()
    } else if a.mantissa == 0 {
        spec_zero()
    } else {
        let mag = if a.mantissa > 0 {
            a.mantissa as int
        } else {
            -(a.mantissa as int)
        };
        let u = a.exponent as int % 3;
        let s = cbrt_rounded((mag * pow10((32 + u) as nat)) as nat) as int;
        spec_normalize(
            if a.mantissa > 0 {
                s
            } else {
                -s
            },
            (a.exponent - u) / 3,
        )
    }
}

impl Decimal {
    /// The cube root.
    pub fn cbrt(&self) -> (r: Decimal)
        requires
            self.wf(),
        ensures
            r == spec_cbrt(*self),
            r.wf(),
    {
        proof {
            lemma_pow10_values();
        }
        if self.nan {
            return Decimal::nan();
        }
        if self.mantissa == 0 {
            return Decimal::zero();
        }
        let mag: u128 = if self.mantissa < 0 {
            (-(self.mantissa as i128)) as u128
        } else {
            self.mantissa as u128
        };
        let em: i64 = self.exponent % 3;
        let u: i64 = if em < 0 {
            em + 3
        } else {
            em
        };
        let s: u128 = cbrt_stream(mag, (32 + u) as u32);
        let e3: i64 = (self.exponent - u) / 3;
        proof {
            assert(3 * e3 == self.exponent - u) by {
                vstd::arithmetic::div_mod::lemma_fundamental_div_mod(
                    self.exponent - u,
                    3,
                );
            }
            lemma_pow10_increases(17, 34);
        }
        if self.mantissa < 0 {
            normalize_raw(-(s as i128), e3)
        } else {
            normalize_raw(s as i128, e3)
        }
    }
}

} // verus!

