//! String formatting: plain, exponential, fixed and precision-controlled
//! rendering, digit-extraction utilities, and the padding helper. Every
//! result is specified as an exact character sequence.

use vstd::prelude::*;
use vstd::string::*;

use crate::base10::{count_digits_u128, n_digits, pow10, rdiv};
use crate::decimal::Decimal;
use crate::EXP_LIMIT;

verus! {

/// The character of one decimal digit.
pub open spec fn digit_char(d: int) -> char {
    if d == 0 {
        '0'
    } else if d == 1 {
        '1'
    } else if d == 2 {
        '2'
    } else if d == 3 {
        '3'
    } else if d == 4 {
        '4'
    } else if d == 5 {
        '5'
    } else if d == 6 {
        '6'
    } else if d == 7 {
        '7'
    } else if d == 8 {
        '8'
    } else {
        '9'
    }
}

/// The decimal digits of `n`, most significant first.
pub open spec fn spec_digits(n: nat) -> Seq<char>
    decreases n,
{
    if n < 10 {
        seq![digit_char(n as int)]
    } else {
        spec_digits(n / 10).push(digit_char((n % 10) as int))
    }
}

/// `k` zero characters.
pub open spec fn spec_zeros(k: nat) -> Seq<char>
    decreases k,
{
    if k == 0 {
        Seq::empty()
    } else {
        spec_zeros((k - 1) as nat).push('0')
    }
}

/// The digits of `n`, left-padded with zeros to width `w`.
pub open spec fn spec_padded(n: nat, w: nat) -> Seq<char> {
    if n_digits(n) < w {
        spec_zeros((w - n_digits(n)) as nat) + spec_digits(n)
    } else {
        spec_digits(n)
    }
}

/// The first `n` characters of `fill` repeated without end.
pub open spec fn repeat_to(fill: Seq<char>, n: nat) -> Seq<char>
    decreases n,
{
    if fill.len() == 0 {
        Seq::empty()
    } else if n <= fill.len() {
        fill.take(n as int)
    } else {
        fill + repeat_to(fill, (n - fill.len()) as nat)
    }
}

/// A string padded on the right with the fill string, repeated and cut as
/// needed, up to the requested length; an empty fill falls back to a space.
pub open spec fn spec_pad_end(s: Seq<char>, max_length: int, fill: Seq<char>) -> Seq<char> {
    let f = if fill.len() == 0 {
        seq![' ']
    } else {
        fill
    };
    if s.len() >= max_length {
        s
    } else {
        s + repeat_to(f, (max_length - s.len()) as nat)
    }
}

/// The digit sequence of `n` has exactly `n_digits(n)` characters.
pub proof fn lemma_spec_digits_len(n: nat)
    ensures
        spec_digits(n).len() == n_digits(n),
    decreases n,
{
    if n >= 10 {
        lemma_spec_digits_len(n / 10);
    }
}

/// Appends the decimal digits of `n` to a string.
pub(crate) fn append_digits(s: &mut String, n: u128)
    ensures
        final(s)@ == old(s)@ + spec_digits(n as nat),
    decreases n,
{
    if n >= 10 {
        append_digits(s, n / 10);
    }
    let d: u128 = n % 10;
    append_digit_char(s, d as u8);
    proof {
        if n < 10 {
            assert(final(s)@ =~= old(s)@ + spec_digits(n as nat));
        } else {
            assert(final(s)@ =~= old(s)@ + spec_digits(n as nat));
        }
    }
}

/// Appends one digit character.
fn append_digit_char(s: &mut String, d: u8)
    requires
        d < 10,
    ensures
        final(s)@ == old(s)@ + seq![digit_char(d as int)],
{
    if d == 0 {
        proof {
            reveal_strlit("0");
        }
        s.append("0");
    } else if d == 1 {
        proof {
            reveal_strlit("1");
        }
        s.append("1");
    } else if d == 2 {
        proof {
            reveal_strlit("2");
        }
        s.append("2");
    } else if d == 3 {
        proof {
            reveal_strlit("3");
        }
        s.append("3");
    } else if d == 4 {
        proof {
            reveal_strlit("4");
        }
        s.append("4");
    } else if d == 5 {
        proof {
            reveal_strlit("5");
        }
        s.append("5");
    } else if d == 6 {
        proof {
            reveal_strlit("6");
        }
        s.append("6");
    } else if d == 7 {
        proof {
            reveal_strlit("7");
        }
        s.append("7");
    } else if d == 8 {
        proof {
            reveal_strlit("8");
        }
        s.append("8");
    } else {
        proof {
            reveal_strlit("9");
        }
        s.append("9");
    }
    proof {
        assert(final(s)@ =~= old(s)@ + seq![digit_char(d as int)]);
    }
}

/// Appends `k` zero characters.
pub(crate) fn append_zeros(s: &mut String, k: u64)
    ensures
        final(s)@ == old(s)@ + spec_zeros(k as nat),
{
    let mut i: u64 = 0;
    proof {
        assert(s@ =~= old(s)@ + spec_zeros(0));
    }
    while i < k
        invariant
            0 <= i <= k,
            s@ == old(s)@ + spec_zeros(i as nat),
        decreases k - i,
    {
        proof {
            reveal_strlit("0");
        }
        s.append("0");
        i = i + 1;
        proof {
            assert(s@ =~= old(s)@ + spec_zeros(i as nat));
        }
    }
}

/// Appends the digits of `n`, left-padded with zeros to width `w`.
pub(crate) fn append_padded(s: &mut String, n: u128, w: u64)
    ensures
        final(s)@ == old(s)@ + spec_padded(n as nat, w as nat),
{
    proof {
        lemma_spec_digits_len(n as nat);
    }
    let d: u64 = count_digits_u128(n);
    if d < w {
        append_zeros(s, w - d);
    }
    append_digits(s, n);
    proof {
        if d < w {
            assert(final(s)@ =~= old(s)@ + spec_padded(n as nat, w as nat));
        }
    }
}

/// Pads the given string on the right with the fill string to the given
/// length, counted in characters. An empty fill string pads with spaces; a
/// string already long enough is returned unchanged.
pub fn pad_end(string: String, max_length: u32, fill_string: &'static str) -> (r: String)
    ensures
        r@ == spec_pad_end(string@, max_length as int, fill_string@),
{
    let length: usize = string.as_str().unicode_len();
    if length >= max_length as usize {
        return string;
    }
    let fill: &'static str = if str_is_empty(fill_string) {
        proof {
            reveal_strlit(" ");
        }
        " "
    } else {
        fill_string
    };
    let ghost f: Seq<char> = fill@;
    proof {
        if fill_string@.len() == 0 {
            reveal_strlit(" ");
            assert(f =~= seq![' ']);
        }
    }
    let fill_len: usize = fill.unicode_len();
    let mut out: String = string;
    let mut rem: usize = max_length as usize - length;
    let ghost total: nat = rem as nat;
    proof {
        assert(out@ + repeat_to(f, rem as nat) =~= string@ + repeat_to(f, total));
    }
    while rem >= fill_len
        invariant
            f == fill@,
            fill_len == f.len(),
            fill_len >= 1,
            out@ + repeat_to(f, rem as nat) == string@ + repeat_to(f, total),
        decreases rem,
    {
        proof {
            lemma_repeat_to_step(f, rem as nat);
        }
        out.append(fill);
        rem = rem - fill_len;
        proof {
            assert(out@ + repeat_to(f, rem as nat) =~= string@ + repeat_to(f, total));
        }
    }
    if rem > 0 {
        let tail: &str = fill.substring_char(0, rem);
        proof {
            assert(repeat_to(f, rem as nat) == f.take(rem as int));
            assert(tail@ =~= f.take(rem as int));
        }
        out.append(tail);
        proof {
            assert(out@ =~= string@ + repeat_to(f, total));
        }
    } else {
        proof {
            assert(repeat_to(f, 0) =~= Seq::<char>::empty());
            assert(out@ =~= string@ + repeat_to(f, total));
        }
    }
    out
}

/// Unrolls one whole copy of the fill out of the repetition.
proof fn lemma_repeat_to_step(f: Seq<char>, n: nat)
    requires
        f.len() >= 1,
        n >= f.len(),
    ensures
        repeat_to(f, n) == f + repeat_to(f, (n - f.len()) as nat),
{
    if n == f.len() {
        assert(repeat_to(f, n) == f.take(n as int));
        assert(f.take(n as int) =~= f);
        assert(repeat_to(f, 0) =~= Seq::<char>::empty());
        assert(f + repeat_to(f, 0) =~= f);
    }
}

/// Whether a string slice is empty, counted in characters.
fn str_is_empty(s: &str) -> (r: bool)
    ensures
        r == (s@.len() == 0),
{
    s.unicode_len() == 0
}

/// `n` with its trailing decimal zeros removed.
pub open spec fn strip10(n: nat) -> nat
    decreases n,
{
    if n > 0 && n % 10 == 0 {
        strip10(n / 10)
    } else {
        n
    }
}

/// The number of trailing decimal zeros of `n`.
pub open spec fn tz10(n: nat) -> nat
    decreases n,
{
    if n > 0 && n % 10 == 0 {
        1 + tz10(n / 10)
    } else {
        0
    }
}

/// Removes the trailing zeros of a positive value, returning the stripped
/// value and how many zeros were removed.
pub(crate) fn strip_zeros_u128(n: u128) -> (r: (u128, u64))
    requires
        1 <= n <= pow10(17),
    ensures
        r.0 == strip10(n as nat),
        r.1 == tz10(n as nat),
        1 <= r.0 <= n,
        r.1 <= 17,
{
    proof {
        crate::base10::lemma_pow10_values();
    }
    let mut t: u128 = n;
    let mut z: u64 = 0;
    proof {
        vstd::arithmetic::mul::lemma_mul_basics(n as int);
    }
    while t % 10 == 0
        invariant
            1 <= t <= n <= pow10(17),
            strip10(n as nat) == strip10(t as nat),
            tz10(n as nat) == tz10(t as nat) + z,
            n == t * pow10(z as nat),
            z <= 17,
        decreases t,
    {
        proof {
            vstd::arithmetic::div_mod::lemma_fundamental_div_mod(t as int, 10);
            assert(t == 10 * (t as int / 10));
            assert((t as int / 10) * (10 * pow10(z as nat)) == (10 * (t as int / 10)) * pow10(
                z as nat,
            )) by (nonlinear_arith);
            assert(10 * pow10(z as nat) == pow10((z + 1) as nat)) by {
                reveal_with_fuel(pow10, 1);
            }
            if z >= 17 {
                crate::base10::lemma_pow10_strictly_increases(17, (z + 1) as nat);
                assert(pow10((z + 1) as nat) <= (t as int / 10) * pow10((z + 1) as nat))
                    by (nonlinear_arith)
                    requires
                        t as int / 10 >= 1,
                        pow10((z + 1) as nat) >= 1,
                ;
                assert(false);
            }
        }
        t = t / 10;
        z = z + 1;
    }
    (t, z)
}

/// The plain decimal rendering of a nonzero finite value whose exponent
/// lies in the human-readable window: the significant digits with the
/// decimal point placed by the exponent, no exponent marker.
pub open spec fn spec_plain(a: Decimal) -> Seq<char> {
    let mag = if a.mantissa > 0 {
        a.mantissa as int
    } else {
        -(a.mantissa as int)
    };
    let sig = strip10(mag as nat);
    let k = n_digits(sig) as int;
    let e = a.exponent as int;
    let sign = if a.mantissa < 0 {
        "-"@
    } else {
        Seq::<char>::empty()
    };
    if e >= k - 1 {
        sign + spec_digits(sig) + spec_zeros((e - (k - 1)) as nat)
    } else if e >= 0 {
        sign + spec_digits(sig / pow10((k - 1 - e) as nat) as nat) + "."@ + spec_padded(
            sig % (pow10((k - 1 - e) as nat) as nat),
            (k - 1 - e) as nat,
        )
    } else {
        sign + "0."@ + spec_zeros((-e - 1) as nat) + spec_digits(sig)
    }
}

/// The default rendering: fixed literals for NaN, the infinities and zero;
/// plain decimal inside the human window `-7 < exponent < 21`; scientific
/// notation with sixteen places outside it.
pub open spec fn spec_to_string(a: Decimal) -> Seq<char> {
    if a.nan {
        "NaN"@
    } else if a.exponent >= EXP_LIMIT {
        if a.mantissa > 0 {
            "Infinity"@
        } else {
            "-Infinity"@
        }
    } else if a.exponent <= -EXP_LIMIT || a.mantissa == 0 {
        "0"@
    } else if -7 < a.exponent < 21 {
        spec_plain(a)
    } else {
        spec_exponential(a, 16)
    }
}

/// The scientific rendering with `places` digits after the point: the
/// mantissa rounded (or zero-padded) to `places` decimals, then `e`, the
/// sign of the exponent, and the exponent's digits.
pub open spec fn spec_exponential(a: Decimal, places: nat) -> Seq<char> {
    if a.nan {
        "NaN"@
    } else if a.exponent >= EXP_LIMIT {
        if a.mantissa > 0 {
            "Infinity"@
        } else {
            "-Infinity"@
        }
    } else if a.exponent <= -EXP_LIMIT || a.mantissa == 0 {
        "0"@ + (if places > 0 {
            "."@ + spec_zeros(places)
        } else {
            Seq::<char>::empty()
        }) + "e+0"@
    } else {
        let mag = if a.mantissa > 0 {
            a.mantissa as int
        } else {
            -(a.mantissa as int)
        };
        let sign = if a.mantissa < 0 {
            "-"@
        } else {
            Seq::<char>::empty()
        };
        let body = if places <= 16 {
            let r = rdiv(mag, pow10((16 - places) as nat));
            spec_digits((r / pow10(places)) as nat) + (if places > 0 {
                "."@ + spec_padded((r % pow10(places)) as nat, places)
            } else {
                Seq::<char>::empty()
            })
        } else {
            spec_digits((mag / pow10(16)) as nat) + "."@ + spec_padded(
                (mag % pow10(16)) as nat,
                16,
            ) + spec_zeros((places - 16) as nat)
        };
        sign + body + "e"@ + spec_exponent_digits(a.exponent as int)
    }
}

/// The rendering of a signed exponent: `+` and the digits for zero or
/// positive, `-` and the digits of the magnitude for negative.
pub open spec fn spec_exponent_digits(e: int) -> Seq<char> {
    if e >= 0 {
        "+"@ + spec_digits(e as nat)
    } else {
        "-"@ + spec_digits((-e) as nat)
    }
}

impl Decimal {
    /// Renders the value as a string: `NaN`, `Infinity`, `-Infinity` or `0`
    /// for the sentinels, plain decimal notation inside the human-readable
    /// window, scientific notation with sixteen places outside it.
    pub fn to_string(&self) -> (r: String)
        requires
            self.wf(),
        ensures
            r@ == spec_to_string(*self),
    {
        proof {
            crate::base10::lemma_pow10_values();
        }
        if self.nan {
            return String::from_str("NaN");
        }
        if self.exponent >= EXP_LIMIT {
            if self.mantissa > 0 {
                return String::from_str("Infinity");
            }
            return String::from_str("-Infinity");
        }
        if self.exponent <= -EXP_LIMIT || self.mantissa == 0 {
            return String::from_str("0");
        }
        if -7 < self.exponent && self.exponent < 21 {
            let mag: u128 = if self.mantissa < 0 {
                (-(self.mantissa as i128)) as u128
            } else {
                self.mantissa as u128
            };
            let sz: (u128, u64) = strip_zeros_u128(mag);
            let sig: u128 = sz.0;
            let k: u64 = count_digits_u128(sig);
            proof {
                lemma_strip10_digit_count(mag as nat);
            }
            let e: i64 = self.exponent;
            let mut s: String = String::new();
            if self.mantissa < 0 {
                s.append("-");
            }
            if e >= (k as i64) - 1 {
                append_digits(&mut s, sig);
                append_zeros(&mut s, (e - ((k as i64) - 1)) as u64);
            } else if e >= 0 {
                let j: u32 = ((k as i64) - 1 - e) as u32;
                let p: u128 = crate::base10::pow10_i128(j) as u128;
                append_digits(&mut s, sig / p);
                s.append(".");
                append_padded(&mut s, sig % p, j as u64);
            } else {
                s.append("0.");
                append_zeros(&mut s, (-e - 1) as u64);
                append_digits(&mut s, sig);
            }
            proof {
                assert(s@ =~= spec_plain(*self));
            }
            return s;
        }
        self.to_exponential(16)
    }
}

impl Decimal {
    /// Renders the value in scientific notation with `places` digits after
    /// the decimal point, rounding the mantissa half away from zero.
    pub fn to_exponential(&self, places: u32) -> (r: String)
        requires
            self.wf(),
        ensures
            r@ == spec_exponential(*self, places as nat),
    {
        proof {
            crate::base10::lemma_pow10_values();
        }
        if self.nan {
            return String::from_str("NaN");
        }
        if self.exponent >= EXP_LIMIT {
            if self.mantissa > 0 {
                return String::from_str("Infinity");
            }
            return String::from_str("-Infinity");
        }
        if self.exponent <= -EXP_LIMIT || self.mantissa == 0 {
            let mut s: String = String::from_str("0");
            if places > 0 {
                s.append(".");
                append_zeros(&mut s, places as u64);
            }
            s.append("e+0");
            proof {
                assert(s@ =~= spec_exponential(*self, places as nat));
            }
            return s;
        }
        let mag: u128 = if self.mantissa < 0 {
            (-(self.mantissa as i128)) as u128
        } else {
            self.mantissa as u128
        };
        let mut s: String = String::new();
        if self.mantissa < 0 {
            s.append("-");
        }
        if places <= 16 {
            let p: i128 = crate::base10::pow10_i128(16 - places);
            proof {
                crate::base10::lemma_pow10_increases((16 - places) as nat, 35);
                crate::base10::lemma_rdiv_bounds(mag as int, p as int);
                crate::base10::lemma_pow10_increases(places as nat, 16);
            }
            let q: u128 = crate::base10::rdiv_i128(mag as i128, p) as u128;
            let pp: u128 = crate::base10::pow10_i128(places) as u128;
            append_digits(&mut s, q / pp);
            if places > 0 {
                s.append(".");
                append_padded(&mut s, q % pp, places as u64);
            }
        } else {
            let p16: u128 = crate::base10::pow10_i128(16) as u128;
            append_digits(&mut s, mag / p16);
            s.append(".");
            append_padded(&mut s, mag % p16, 16);
            append_zeros(&mut s, (places - 16) as u64);
        }
        s.append("e");
        if self.exponent >= 0 {
            s.append("+");
            append_digits(&mut s, self.exponent as u128);
        } else {
            s.append("-");
            append_digits(&mut s, (-self.exponent) as u128);
        }
        proof {
            assert(s@ =~= spec_exponential(*self, places as nat));
        }
        s
    }
}

/// The fractional suffix of a fixed rendering: a point and `places` zeros,
/// or nothing when no places are asked for.
pub open spec fn frac_zeros(places: nat) -> Seq<char> {
    if places > 0 {
        "."@ + spec_zeros(places)
    } else {
        Seq::<char>::empty()
    }
}

/// The fixed-point rendering with `places` digits after the point. At or
/// beyond seventeen digits of exponent the double can resolve no further
/// digits, so the digit string is the significant digits padded with zeros
/// out to `exponent + 1` characters; below that, the value is rounded to
/// `places` decimals.
pub open spec fn spec_fixed(a: Decimal, places: nat) -> Seq<char> {
    if a.nan {
        "NaN"@
    } else if a.exponent >= EXP_LIMIT {
        if a.mantissa > 0 {
            "Infinity"@
        } else {
            "-Infinity"@
        }
    } else if a.exponent <= -EXP_LIMIT || a.mantissa == 0 {
        "0"@ + frac_zeros(places)
    } else {
        let mag = if a.mantissa > 0 {
            a.mantissa as int
        } else {
            -(a.mantissa as int)
        };
        let sign = if a.mantissa < 0 {
            "-"@
        } else {
            Seq::<char>::empty()
        };
        if a.exponent >= 17 {
            let sig = strip10(mag as nat);
            sign + spec_digits(sig) + spec_zeros((a.exponent + 1 - n_digits(sig)) as nat)
                + frac_zeros(places)
        } else {
            let p = (16 - a.exponent) as nat;
            if p <= places {
                sign + spec_digits((mag / pow10(p)) as nat) + (if places > 0 {
                    "."@ + (if p > 0 {
                        spec_padded((mag % pow10(p)) as nat, p)
                    } else {
                        Seq::<char>::empty()
                    }) + spec_zeros((places - p) as nat)
                } else {
                    Seq::<char>::empty()
                })
            } else {
                let r = rdiv(mag, pow10((p - places) as nat));
                sign + spec_digits((r / pow10(places)) as nat) + (if places > 0 {
                    "."@ + spec_padded((r % pow10(places)) as nat, places)
                } else {
                    Seq::<char>::empty()
                })
            }
        }
    }
}

impl Decimal {
    /// Renders the value in fixed-point notation with `places` digits after
    /// the decimal point.
    pub fn to_fixed(&self, places: u32) -> (r: String)
        requires
            self.wf(),
        ensures
            r@ == spec_fixed(*self, places as nat),
    {
        proof {
            crate::base10::lemma_pow10_values();
        }
        if self.nan {
            return String::from_str("NaN");
        }
        if self.exponent >= EXP_LIMIT {
            if self.mantissa > 0 {
                return String::from_str("Infinity");
            }
            return String::from_str("-Infinity");
        }
        if self.exponent <= -EXP_LIMIT || self.mantissa == 0 {
            let mut s: String = String::from_str("0");
            if places > 0 {
                s.append(".");
                append_zeros(&mut s, places as u64);
            }
            proof {
                assert(s@ =~= spec_fixed(*self, places as nat));
            }
            return s;
        }
        let mag: u128 = if self.mantissa < 0 {
            (-(self.mantissa as i128)) as u128
        } else {
            self.mantissa as u128
        };
        let mut s: String = String::new();
        if self.mantissa < 0 {
            s.append("-");
        }
        if self.exponent >= 17 {
            let sz: (u128, u64) = strip_zeros_u128(mag);
            let sig: u128 = sz.0;
            let k: u64 = count_digits_u128(sig);
            proof {
                lemma_strip10_digit_count(mag as nat);
            }
            append_digits(&mut s, sig);
            append_zeros(&mut s, ((self.exponent + 1) as u64) - k);
            if places > 0 {
                s.append(".");
                append_zeros(&mut s, places as u64);
            }
            proof {
                assert(s@ =~= spec_fixed(*self, places as nat));
            }
            return s;
        }
        let p: i64 = 16 - self.exponent;
        if p <= places as i64 {
            if p >= 18 {
                proof {
                    crate::base10::lemma_pow10_increases(18, p as nat);
                    vstd::arithmetic::div_mod::lemma_basic_div(mag as int, pow10(p as nat));
                    vstd::arithmetic::div_mod::lemma_small_mod(
                        mag as nat,
                        pow10(p as nat) as nat,
                    );
                }
                append_digits(&mut s, 0);
                s.append(".");
                append_padded(&mut s, mag, p as u64);
                append_zeros(&mut s, (places as u64) - (p as u64));
            } else {
                let pp: u128 = crate::base10::pow10_i128(p as u32) as u128;
                proof {
                    crate::base10::lemma_pow10_increases(p as nat, 17);
                }
                append_digits(&mut s, mag / pp);
                if places > 0 {
                    s.append(".");
                    if p > 0 {
                        append_padded(&mut s, mag % pp, p as u64);
                    }
                    append_zeros(&mut s, (places as u64) - (p as u64));
                }
            }
        } else {
            let gap: i64 = p - places as i64;
            let q: u128;
            if gap >= 18 {
                proof {
                    crate::base10::lemma_pow10_increases(17, (gap - 1) as nat);
                    crate::base10::lemma_rdiv_small(mag as int, gap as nat);
                }
                q = 0;
            } else {
                let pg: i128 = crate::base10::pow10_i128(gap as u32);
                proof {
                    crate::base10::lemma_pow10_increases(gap as nat, 35);
                }
                q = crate::base10::rdiv_i128(mag as i128, pg) as u128;
                proof {
                    crate::base10::lemma_pow10_adds(17, gap as nat);
                    assert(mag < pow10(17) * pow10(gap as nat)) by {
                        crate::base10::lemma_pow10_positive((17 + gap) as nat);
                        crate::base10::lemma_pow10_increases(17, (17 + gap) as nat);
                    }
                    crate::base10::lemma_rdiv_le(mag as int, pg as int, pow10(17));
                }
            }
            if places >= 18 {
                proof {
                    crate::base10::lemma_pow10_increases(18, places as nat);
                    vstd::arithmetic::div_mod::lemma_basic_div(q as int, pow10(places as nat));
                    vstd::arithmetic::div_mod::lemma_small_mod(q as nat, pow10(places as nat) as nat);
                }
                append_digits(&mut s, 0);
                s.append(".");
                append_padded(&mut s, q, places as u64);
            } else {
                let pq: u128 = crate::base10::pow10_i128(places) as u128;
                append_digits(&mut s, q / pq);
                if places > 0 {
                    s.append(".");
                    append_padded(&mut s, q % pq, places as u64);
                }
            }
        }
        proof {
            assert(s@ =~= spec_fixed(*self, places as nat));
        }
        s
    }

    /// Renders with `places` significant digits: fixed-point while the
    /// integer part has room for them, scientific notation otherwise.
    pub fn to_precision(&self, places: u32) -> (r: String)
        requires
            self.wf(),
            1 <= places <= 100000000,
        ensures
            r@ == if self.exponent <= -7 {
                spec_exponential(*self, (places - 1) as nat)
            } else if places as int > self.exponent {
                spec_fixed(*self, (places - self.exponent - 1) as nat)
            } else {
                spec_exponential(*self, (places - 1) as nat)
            },
    {
        if self.exponent <= -7 {
            return self.to_exponential(places - 1);
        }
        if (places as i64) > self.exponent {
            return self.to_fixed(((places as i64) - self.exponent - 1) as u32);
        }
        self.to_exponential(places - 1)
    }

    /// The number of decimal places needed to write the value out in full:
    /// `None` for NaN, zero for integers, saturating at the largest count a
    /// machine word carries for the deepest fractions.
    pub fn dp(&self) -> (r: Option<i32>)
        requires
            self.wf(),
        ensures
            r == spec_dp(*self),
    {
        proof {
            crate::base10::lemma_pow10_values();
        }
        if self.nan {
            return None;
        }
        if self.exponent >= 17 {
            return Some(0);
        }
        if self.mantissa == 0 {
            return Some(0);
        }
        let mag: u128 = if self.mantissa < 0 {
            (-(self.mantissa as i128)) as u128
        } else {
            self.mantissa as u128
        };
        let sz: (u128, u64) = strip_zeros_u128(mag);
        let places: i64 = 16 - (sz.1 as i64) - self.exponent;
        if places < 0 {
            Some(0)
        } else if places > 0x7fffffff {
            Some(0x7fffffff)
        } else {
            Some(places as i32)
        }
    }

    /// The mantissa alone, rounded to `places` decimal digits, still in
    /// fixed point with scale `10^16`; `None` for NaN.
    pub fn mantissa_with_decimal_places(&self, places: u32) -> (r: Option<i64>)
        requires
            self.wf(),
        ensures
            r == spec_mantissa_places(*self, places as nat),
    {
        proof {
            crate::base10::lemma_pow10_values();
        }
        if self.nan {
            return None;
        }
        if self.mantissa == 0 {
            return Some(0);
        }
        if places >= 16 {
            return Some(self.mantissa);
        }
        let p: i128 = crate::base10::pow10_i128(16 - places);
        proof {
            crate::base10::lemma_pow10_increases((16 - places) as nat, 16);
            crate::rounding::lemma_rounded_mult_bounds(self.mantissa as int, p as int);
        }
        let q: i128 = crate::base10::rdiv_i128(self.mantissa as i128, p);
        Some((q * p) as i64)
    }
}

/// `None` for NaN; otherwise how many decimal places the value needs:
/// none at seventeen digits of exponent or more and none for zero, and
/// `16 - (trailing zeros) - exponent` otherwise, held to `i32`.
pub open spec fn spec_dp(a: Decimal) -> Option<i32> {
    if a.nan {
        None
    } else if a.exponent >= 17 {
        Some(0)
    } else if a.mantissa == 0 {
        Some(0)
    } else {
        let mag = if a.mantissa > 0 {
            a.mantissa as int
        } else {
            -(a.mantissa as int)
        };
        let places = 16 - tz10(mag as nat) - a.exponent;
        if places < 0 {
            Some(0)
        } else if places > 0x7fffffff {
            Some(0x7fffffff)
        } else {
            Some(places as i32)
        }
    }
}

/// The mantissa rounded half away from zero at `places` decimal digits, in
/// fixed point with scale `10^16`.
pub open spec fn spec_mantissa_places(a: Decimal, places: nat) -> Option<i64> {
    if a.nan {
        None
    } else if a.mantissa == 0 {
        Some(0)
    } else if places >= 16 {
        Some(a.mantissa)
    } else {
        Some(crate::rounding::round_mult(a.mantissa as int, pow10((16 - places) as nat)) as i64)
    }
}

/// Stripping trailing zeros of a seventeen-digit-or-smaller value leaves at
/// most seventeen digits, and at least one.
proof fn lemma_strip10_digit_count(n: nat)
    requires
        1 <= n < pow10(17),
    ensures
        1 <= strip10(n) <= n,
        n_digits(strip10(n)) <= 17,
    decreases n,
{
    crate::base10::lemma_pow10_values();
    if n % 10 == 0 {
        vstd::arithmetic::div_mod::lemma_fundamental_div_mod(n as int, 10);
        lemma_strip10_digit_count(n / 10);
    } else {
        crate::base10::lemma_n_digits_bounds(n);
        if n_digits(n) > 17 {
            crate::base10::lemma_pow10_increases(17, (n_digits(n) - 1) as nat);
            assert(false);
        }
    }
}

} // verus!
