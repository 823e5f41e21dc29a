//! Parsing decimals from strings: a decimal literal, a `<mantissa>e<exponent>`
//! pair, or the literal `NaN`. A malformed mantissa or exponent yields a
//! parse error.

use vstd::prelude::*;
use vstd::string::*;

use crate::base10::pow10;
use crate::decimal::{normalize_raw, spec_nan, spec_normalize, Decimal};
use crate::EXP_LIMIT;

verus! {

/// The error reported for a malformed mantissa or exponent substring.
#[derive(Clone, Copy, Debug, PartialEq, Eq, Structural)]
pub struct ParseError;

/// Whether a character is a decimal digit.
pub open spec fn is_digit(c: char) -> bool {
    '0' <= c <= '9'
}

/// The value of a digit character.
pub open spec fn digit_val(c: char) -> int {
    c as int - '0' as int
}

/// The scanner state for a mantissa: the accumulated significant digits
/// (capped at eighteen), the decimal-point adjustment to the exponent,
/// whether a point was seen, and how many digits were seen.
pub open spec fn mant_step(st: (nat, int, bool, nat), c: char) -> Option<(nat, int, bool, nat)> {
    if c == '.' {
        if st.2 {
            None
        } else {
            Some((st.0, st.1, true, st.3))
        }
    } else if is_digit(c) {
        if st.0 < pow10(17) {
            Some(
                (
                    (st.0 * 10 + digit_val(c)) as nat,
                    if st.2 {
                        st.1 - 1
                    } else {
                        st.1
                    },
                    st.2,
                    st.3 + 1,
                ),
            )
        } else {
            Some(
                (
                    st.0,
                    if st.2 {
                        st.1
                    } else {
                        st.1 + 1
                    },
                    st.2,
                    st.3 + 1,
                ),
            )
        }
    } else {
        None
    }
}

/// Runs the mantissa scanner over the characters from position `i` on.
pub open spec fn scan_mant(s: Seq<char>, i: int, st: (nat, int, bool, nat)) -> Option<
    (nat, int, bool, nat),
>
    decreases s.len() - i,
{
    if i < 0 || i >= s.len() {
        Some(st)
    } else {
        match mant_step(st, s[i]) {
            None => None,
            Some(st2) => scan_mant(s, i + 1, st2),
        }
    }
}

/// The scanner state for an exponent: the accumulated magnitude, clamped
/// once it exceeds twice the exponent limit, and how many digits were seen.
pub open spec fn exp_step(st: (int, nat), c: char) -> Option<(int, nat)> {
    if is_digit(c) {
        if st.0 <= 2 * EXP_LIMIT {
            Some((st.0 * 10 + digit_val(c), st.1 + 1))
        } else {
            Some((st.0, st.1 + 1))
        }
    } else {
        None
    }
}

/// Runs the exponent scanner over the characters from position `i` on.
pub open spec fn scan_exp(s: Seq<char>, i: int, st: (int, nat)) -> Option<(int, nat)>
    decreases s.len() - i,
{
    if i < 0 || i >= s.len() {
        Some(st)
    } else {
        match exp_step(st, s[i]) {
            None => None,
            Some(st2) => scan_exp(s, i + 1, st2),
        }
    }
}

/// The parsed mantissa of a character sequence: its sign, its significant
/// digits, and its point adjustment; `None` when malformed.
pub open spec fn spec_parse_mantissa(s: Seq<char>) -> Option<(bool, nat, int)> {
    let neg = s.len() > 0 && s[0] == '-';
    let signed = s.len() > 0 && (s[0] == '-' || s[0] == '+');
    let body = if signed {
        s.skip(1)
    } else {
        s
    };
    match scan_mant(body, 0, (0, 0, false, 0)) {
        None => None,
        Some(st) => if st.3 >= 1 {
            Some((neg, st.0, st.1))
        } else {
            None
        },
    }
}

/// The parsed exponent of a character sequence, clamped to the range whose
/// overflow saturates anyway; `None` when malformed.
pub open spec fn spec_parse_exponent(s: Seq<char>) -> Option<int> {
    let neg = s.len() > 0 && s[0] == '-';
    let signed = s.len() > 0 && (s[0] == '-' || s[0] == '+');
    let body = if signed {
        s.skip(1)
    } else {
        s
    };
    match scan_exp(body, 0, (0, 0)) {
        None => None,
        Some(st) => if st.1 >= 1 {
            Some(
                if neg {
                    -st.0
                } else {
                    st.0
                },
            )
        } else {
            None
        },
    }
}

/// The position of the first `e` in the sequence, or `None`.
pub open spec fn first_e(s: Seq<char>, i: int) -> Option<int>
    decreases s.len() - i,
{
    if i < 0 || i >= s.len() {
        None
    } else if s[i] == 'e' {
        Some(i)
    } else {
        first_e(s, i + 1)
    }
}

/// An exponent sum held to the range that normalization saturates in.
pub open spec fn clamp_exponent(e: int) -> int {
    if e > 3 * EXP_LIMIT {
        3 * EXP_LIMIT
    } else if e < -3 * EXP_LIMIT {
        -3 * EXP_LIMIT
    } else {
        e
    }
}

/// What parsing a string yields: NaN for the literal `NaN`; otherwise the
/// mantissa before the first `e` (or the whole string) and the integer
/// exponent after it, normalized together; an error when either part is
/// malformed.
pub open spec fn spec_from_str(s: Seq<char>) -> Result<Decimal, ParseError> {
    if s =~= "NaN"@ {
        Ok(spec_nan())
    } else {
        let me = match first_e(s, 0) {
            Some(i) => (spec_parse_mantissa(s.take(i)), spec_parse_exponent(s.skip(i + 1))),
            None => (spec_parse_mantissa(s), Some(0int)),
        };
        match me.0 {
            None => Err(ParseError),
            Some(m) => match me.1 {
                None => Err(ParseError),
                Some(e) => Ok(
                    spec_normalize(
                        if m.0 {
                            -(m.1 as int)
                        } else {
                            m.1 as int
                        },
                        clamp_exponent(16 + m.2 + e),
                    ),
                ),
            },
        }
    }
}

impl Decimal {
    /// Parses a decimal from a string: the literal `NaN`, a decimal literal
    /// such as `-12.5`, or `<mantissa>e<exponent>` with an integer exponent.
    /// Digits beyond the eighteenth significant digit only position the
    /// exponent. Returns an error for a malformed mantissa or exponent.
    pub fn from_str(s: &str) -> (r: Result<Decimal, ParseError>)
        ensures
            r == spec_from_str(s@),
            r is Ok ==> (r matches Ok(d) && (d.wf() || d == spec_nan())),
    {
        proof {
            crate::base10::lemma_pow10_values();
            reveal_strlit("NaN");
        }
        let n: usize = s.unicode_len();
        if n == 3 && s.get_char(0) == 'N' && s.get_char(1) == 'a' && s.get_char(2) == 'N' {
            proof {
                assert(s@ =~= "NaN"@);
            }
            return Ok(Decimal::nan());
        }
        proof {
            assert(!(s@ =~= "NaN"@));
        }
        let mut epos: usize = 0;
        let mut has_e: bool = false;
        while epos < n && !has_e
            invariant
                0 <= epos <= n == s@.len(),
                !has_e ==> first_e(s@, 0) == first_e(s@, epos as int),
                has_e ==> epos < n && first_e(s@, 0) == Some(epos as int) && s@[epos as int] == 'e',
            decreases n - epos + (if has_e { 0int } else { 1 }),
        {
            if s.get_char(epos) == 'e' {
                has_e = true;
            } else {
                epos = epos + 1;
            }
        }
        let mant_end: usize = if has_e {
            epos
        } else {
            n
        };
        let ghost mant_seq: Seq<char> = if has_e {
            s@.take(epos as int)
        } else {
            s@
        };
        proof {
            if !has_e {
                assert(first_e(s@, 0) is None);
            }
        }
        // Parse the mantissa in s[0 .. mant_end].
        let mut i: usize = 0;
        let mut neg: bool = false;
        if mant_end > 0 {
            let c0: char = s.get_char(0);
            if c0 == '-' {
                neg = true;
                i = 1;
            } else if c0 == '+' {
                i = 1;
            }
        }
        let ghost body: Seq<char> = if i == 1 {
            mant_seq.skip(1)
        } else {
            mant_seq
        };
        proof {
            assert(mant_seq =~= s@.take(mant_end as int));
            if i == 1 {
                assert(body =~= s@.take(mant_end as int).skip(1));
            }
        }
        let mut acc: u128 = 0;
        let mut adj: i128 = 0;
        let mut dot: bool = false;
        let mut nd: u64 = 0;
        let mut ok: bool = true;
        while i < mant_end
            invariant
                0 <= i <= mant_end <= n == s@.len(),
                mant_end <= n,
                mant_seq == s@.take(mant_end as int),
                body.len() == mant_end - (if body == mant_seq { 0int } else { 1 }),
                forall|j: int| 0 <= j < body.len() ==> body[j] == s@[j + (mant_end - body.len())],
                i >= mant_end - body.len(),
                acc < pow10(18),
                nd <= i,
                -(i as int) <= adj <= i as int,
                ok ==> scan_mant(body, 0, (0, 0, false, 0)) == scan_mant(
                    body,
                    i - (mant_end - body.len()),
                    (acc as nat, adj as int, dot, nd as nat),
                ),
                !ok ==> scan_mant(body, 0, (0, 0, false, 0)) is None,
            decreases mant_end - i,
        {
            proof {
                crate::base10::lemma_pow10_values();
            }
            let c: char = s.get_char(i);
            let ghost bi: int = i - (mant_end - body.len());
            proof {
                assert(body[bi] == c);
            }
            if ok {
                if c == '.' {
                    if dot {
                        ok = false;
                    } else {
                        dot = true;
                    }
                } else if c as u32 >= 48 && c as u32 <= 57 {
                    let d: u32 = (c as u32) - 48;
                    if acc < 100000000000000000 {
                        acc = acc * 10 + (d as u128);
                        if dot {
                            adj = adj - 1;
                        }
                    } else {
                        if !dot {
                            adj = adj + 1;
                        }
                    }
                    nd = nd + 1;
                } else {
                    ok = false;
                }
            }
            i = i + 1;
        }
        if !ok || nd == 0 {
            proof {
                if ok {
                    assert(scan_mant(body, 0, (0, 0, false, 0)) == Some(
                        (acc as nat, adj as int, dot, nd as nat),
                    ));
                }
            }
            return Err(ParseError);
        }
        proof {
            assert(scan_mant(body, 0, (0, 0, false, 0)) == Some(
                (acc as nat, adj as int, dot, nd as nat),
            ));
        }
        // Parse the exponent after the `e`, if any.
        let mut exp: i64 = 0;
        if has_e {
            let ghost exp_seq: Seq<char> = s@.skip(epos as int + 1);
            let mut j: usize = epos + 1;
            let mut eneg: bool = false;
            if j < n {
                let c0: char = s.get_char(j);
                if c0 == '-' {
                    eneg = true;
                    j = j + 1;
                } else if c0 == '+' {
                    j = j + 1;
                }
            }
            let eoff: usize = j;
            let ghost ebody: Seq<char> = s@.skip(eoff as int);
            proof {
                if eoff == epos + 2 {
                    assert(ebody =~= exp_seq.skip(1));
                } else {
                    assert(ebody =~= exp_seq);
                }
            }
            let mut eacc: i64 = 0;
            let mut end_: u64 = 0;
            let mut eok: bool = true;
            while j < n
                invariant
                    epos < eoff <= j <= n == s@.len(),
                    ebody == s@.skip(eoff as int),
                    end_ <= j - eoff,
                    0 <= eacc <= 2 * EXP_LIMIT * 10 + 9,
                    eok ==> scan_exp(ebody, 0, (0, 0)) == scan_exp(
                        ebody,
                        j - eoff,
                        (eacc as int, end_ as nat),
                    ),
                    !eok ==> scan_exp(ebody, 0, (0, 0)) is None,
                decreases n - j,
            {
                let c: char = s.get_char(j);
                proof {
                    assert(ebody[j - eoff] == c);
                }
                if eok {
                    if c as u32 >= 48 && c as u32 <= 57 {
                        let d: u32 = (c as u32) - 48;
                        if eacc <= 2 * EXP_LIMIT {
                            eacc = eacc * 10 + (d as i64);
                        }
                        end_ = end_ + 1;
                    } else {
                        eok = false;
                    }
                }
                j = j + 1;
            }
            if !eok || end_ == 0 {
                proof {
                    if eok {
                        assert(scan_exp(ebody, 0, (0, 0)) == Some((eacc as int, end_ as nat)));
                    }
                }
                return Err(ParseError);
            }
            proof {
                assert(scan_exp(ebody, 0, (0, 0)) == Some((eacc as int, end_ as nat)));
            }
            exp = if eneg {
                -eacc
            } else {
                eacc
            };
        }
        // Combine: the value is +/- acc * 10^(adj + exp).
        let etotal: i128 = 16 + (adj as i128) + (exp as i128);
        let eclamped: i64 = if etotal > 3 * (EXP_LIMIT as i128) {
            3 * EXP_LIMIT
        } else if etotal < -3 * (EXP_LIMIT as i128) {
            -(3 * EXP_LIMIT)
        } else {
            etotal as i64
        };
        let m: i128 = if neg {
            -(acc as i128)
        } else {
            acc as i128
        };
        proof {
            crate::base10::lemma_pow10_increases(18, 34);
        }
        Ok(normalize_raw(m, eclamped))
    }
}

impl core::str::FromStr for Decimal {
    type Err = ParseError;

    fn from_str(s: &str) -> (r: Result<Decimal, ParseError>) {
        Decimal::from_str(s)
    }
}

} // verus!
