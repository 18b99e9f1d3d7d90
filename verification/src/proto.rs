//! The external control protocol: line-delimited JSON objects over byte
//! strings.
//!
//! Output values are written in plain decimal with exactly six fraction
//! digits. Input lines are read as JSON objects: the two control members
//! bind numbers in full JSON number syntax (sign, fraction, exponent),
//! other members are skipped whole, and whitespace may stand between
//! tokens. Reading is saturating, never failing, on in-syntax numbers of
//! any size: fraction digits beyond the sixth are ignored and magnitudes
//! beyond `PROTO_SAT` are capped, which downstream clamping to one unit
//! makes invisible. Rendering and parsing are exact inverses on every
//! in-range value, which is what makes the protocol round-trip.

use vstd::prelude::*;

use crate::fx::{tdiv, SCALE};

verus! {

/// Largest number of significant integer digits read exactly; a longer
/// whole part saturates to `PROTO_SAT`.
pub const MAX_INT_DIGITS: usize = 12;

/// The saturation magnitude for protocol numbers, in micro-units (one
/// million units). Inputs are clamped to one unit downstream anyway.
pub const PROTO_SAT: i64 = 1000000000000000000;

/// Whether a byte is an ASCII decimal digit.
pub open spec fn is_digit(b: u8) -> bool {
    48 <= b <= 57
}

/// Whether a byte is JSON whitespace.
pub open spec fn is_ws(b: u8) -> bool {
    b == 32 || b == 9 || b == 10 || b == 13
}

/// The decimal digits of `n`, most significant first.
pub open spec fn digits_of(n: nat) -> Seq<u8>
    decreases n,
{
    if n < 10 {
        seq![(48 + n) as u8]
    } else {
        digits_of(n / 10) + seq![(48 + n % 10) as u8]
    }
}

/// The `k` least significant decimal digits of `n`, zero padded, most
/// significant first.
pub open spec fn frac_digits(n: nat, k: nat) -> Seq<u8>
    decreases k,
{
    if k == 0 {
        Seq::<u8>::empty()
    } else {
        frac_digits(n / 10, (k - 1) as nat) + seq![(48 + n % 10) as u8]
    }
}

/// Ten to the `k`.
pub open spec fn pow10(k: nat) -> int
    decreases k,
{
    if k == 0 {
        1int
    } else {
        10 * pow10((k - 1) as nat)
    }
}

/// The decimal rendering of a fixed-point value: optional minus sign, the
/// whole units, a dot, and exactly six fraction digits.
pub open spec fn render_fx_spec(v: int) -> Seq<u8> {
    let m = vstd::math::abs(v) as int;
    let sign = if v < 0 {
        seq![45u8]
    } else {
        Seq::<u8>::empty()
    };
    sign + digits_of((m / (SCALE as int)) as nat) + seq![46u8] + frac_digits(
        (m % (SCALE as int)) as nat,
        6,
    )
}

/// Append the decimal digits of `n`.
fn push_digits(out: &mut Vec<u8>, n: u64)
    ensures
        final(out)@ == old(out)@ + digits_of(n as nat),
    decreases n,
{
    if n < 10 {
        out.push(48 + (n as u8));
    } else {
        push_digits(out, n / 10);
        out.push(48 + ((n % 10) as u8));
    }
    proof {
        assert(final(out)@ =~= old(out)@ + digits_of(n as nat));
    }
}

/// Append the `k` least significant decimal digits of `n`, zero padded.
fn push_frac_digits(out: &mut Vec<u8>, n: u64, k: u64)
    ensures
        final(out)@ == old(out)@ + frac_digits(n as nat, k as nat),
    decreases k,
{
    if k > 0 {
        push_frac_digits(out, n / 10, k - 1);
        out.push(48 + ((n % 10) as u8));
    }
    proof {
        assert(final(out)@ =~= old(out)@ + frac_digits(n as nat, k as nat));
    }
}

/// Append the decimal rendering of a fixed-point value.
pub fn push_fx(out: &mut Vec<u8>, v: i64)
    requires
        v != i64::MIN,
    ensures
        final(out)@ == old(out)@ + render_fx_spec(v as int),
{
    let m: u64 = if v < 0 {
        out.push(45);
        (-v) as u64
    } else {
        v as u64
    };
    push_digits(out, m / (SCALE as u64));
    out.push(46);
    push_frac_digits(out, m % (SCALE as u64), 6);
    proof {
        assert(final(out)@ =~= old(out)@ + render_fx_spec(v as int));
    }
}

/// The first position at or after `i` that does not hold whitespace.
pub open spec fn skip_ws_spec(s: Seq<u8>, i: int) -> int
    decreases s.len() - i,
{
    if 0 <= i < s.len() && is_ws(s[i]) {
        skip_ws_spec(s, i + 1)
    } else {
        i
    }
}

/// The first position at or after `i` that does not hold a digit.
pub open spec fn digits_end_spec(s: Seq<u8>, i: int) -> int
    decreases s.len() - i,
{
    if 0 <= i < s.len() && is_digit(s[i]) {
        digits_end_spec(s, i + 1)
    } else {
        i
    }
}

/// The first position at or after `i` that does not hold a zero digit.
pub open spec fn zeros_end_spec(s: Seq<u8>, i: int) -> int
    decreases s.len() - i,
{
    if 0 <= i < s.len() && s[i] == 48 {
        zeros_end_spec(s, i + 1)
    } else {
        i
    }
}

/// The value of the digit run `s[i..j)`.
pub open spec fn digits_value_spec(s: Seq<u8>, i: int, j: int) -> int
    decreases j - i,
{
    if i >= j {
        0int
    } else {
        digits_value_spec(s, i, j - 1) * 10 + (s[j - 1] - 48)
    }
}

/// The value of the fraction digit run `s[i..j)` in micro-units: only the
/// first six digits count.
pub open spec fn frac_value_spec(s: Seq<u8>, i: int, j: int) -> int {
    let e = if j > i + 6 {
        i + 6
    } else {
        j
    };
    digits_value_spec(s, i, e) * pow10((6 - (e - i)) as nat)
}

/// The exponent part starting at the `e`/`E` at `p`, applied to a
/// nonnegative base magnitude: optional sign, at least one digit, scaling
/// by the power of ten and saturating at `PROTO_SAT`. Returns the scaled
/// magnitude and the position after the exponent.
pub open spec fn parse_exp_spec(s: Seq<u8>, p: int, base: int) -> Option<(int, int)> {
    let esigned = p + 1 < s.len() && (s[p + 1] == 45 || s[p + 1] == 43);
    let eneg = p + 1 < s.len() && s[p + 1] == 45;
    let e1 = if esigned {
        p + 2
    } else {
        p + 1
    };
    let q = digits_end_spec(s, e1);
    if q == e1 {
        None
    } else {
        let em = digits_value_spec(s, zeros_end_spec(s, e1), q);
        let m = if eneg {
            tdiv(base, pow10(em as nat))
        } else if base * pow10(em as nat) > PROTO_SAT {
            PROTO_SAT as int
        } else {
            base * pow10(em as nat)
        };
        Some((m, q))
    }
}

/// The fixed-point number starting at `i`, in JSON number syntax: optional
/// minus sign, at least one integer digit, an optional fraction of at
/// least one digit, and an optional exponent with at least one digit.
/// Whole parts beyond `MAX_INT_DIGITS` significant digits saturate to
/// `PROTO_SAT`, fraction digits beyond the sixth are ignored, and exponent
/// scaling saturates at `PROTO_SAT` (values this size are clamped to one
/// unit downstream anyway). Returns the value and the position after it.
pub open spec fn parse_fx_spec(s: Seq<u8>, i: int) -> Option<(int, int)> {
    let neg = 0 <= i < s.len() && s[i] == 45;
    let i1 = if neg {
        i + 1
    } else {
        i
    };
    let j = digits_end_spec(s, i1);
    if j == i1 {
        None
    } else {
        let z = zeros_end_spec(s, i1);
        let int_sat = j - z > MAX_INT_DIGITS;
        let ipart = if int_sat {
            0int
        } else {
            digits_value_spec(s, z, j)
        };
        let has_frac = j < s.len() && s[j] == 46;
        let k = digits_end_spec(s, j + 1);
        if has_frac && k == j + 1 {
            None
        } else {
            let frac = if has_frac {
                frac_value_spec(s, j + 1, k)
            } else {
                0int
            };
            let base = if int_sat {
                PROTO_SAT as int
            } else {
                ipart * SCALE + frac
            };
            let p = if has_frac {
                k
            } else {
                j
            };
            let has_exp = p < s.len() && (s[p] == 101 || s[p] == 69);
            if !has_exp {
                Some(((if neg {
                    -base
                } else {
                    base
                }), p))
            } else {
                match parse_exp_spec(s, p, base) {
                    None => None,
                    Some((m, q)) => Some(((if neg {
                        -m
                    } else {
                        m
                    }), q)),
                }
            }
        }
    }
}

/// Advance past whitespace.
fn skip_ws(s: &Vec<u8>, i: usize) -> (r: usize)
    requires
        i <= s@.len(),
    ensures
        r == skip_ws_spec(s@, i as int),
        i <= r <= s@.len(),
    decreases s@.len() - i,
{
    if i < s.len() && (s[i] == 32 || s[i] == 9 || s[i] == 10 || s[i] == 13) {
        skip_ws(s, i + 1)
    } else {
        i
    }
}

/// Advance past digits.
fn digits_end(s: &Vec<u8>, i: usize) -> (r: usize)
    requires
        i <= s@.len(),
    ensures
        r == digits_end_spec(s@, i as int),
        i <= r <= s@.len(),
    decreases s@.len() - i,
{
    if i < s.len() && 48 <= s[i] && s[i] <= 57 {
        digits_end(s, i + 1)
    } else {
        i
    }
}

/// Advance past zero digits.
fn zeros_end(s: &Vec<u8>, i: usize) -> (r: usize)
    requires
        i <= s@.len(),
    ensures
        r == zeros_end_spec(s@, i as int),
        i <= r <= s@.len(),
    decreases s@.len() - i,
{
    if i < s.len() && s[i] == 48 {
        zeros_end(s, i + 1)
    } else {
        i
    }
}

/// The zero run ends no later than the digit run.
proof fn lemma_zeros_within_digits(s: Seq<u8>, i: int)
    requires
        0 <= i,
    ensures
        i <= zeros_end_spec(s, i) <= digits_end_spec(s, i),
    decreases s.len() - i,
{
    if 0 <= i < s.len() && s[i] == 48 {
        lemma_zeros_within_digits(s, i + 1);
    } else if 0 <= i < s.len() && is_digit(s[i]) {
        lemma_digits_end_digits(s, i);
    }
}

/// Where the zero run stops inside the string, a non-zero byte stands.
proof fn lemma_zeros_end_stops(s: Seq<u8>, i: int)
    requires
        0 <= i,
    ensures
        zeros_end_spec(s, i) < s.len() ==> s[zeros_end_spec(s, i)] != 48,
    decreases s.len() - i,
{
    if 0 <= i < s.len() && s[i] == 48 {
        lemma_zeros_end_stops(s, i + 1);
    }
}

/// A digit run whose leading digit is not zero has a value of at least
/// `10 ^ (length - 1)`.
proof fn lemma_digits_value_lower(s: Seq<u8>, i: int, j: int)
    requires
        i < j,
        forall|t: int| i <= t < j ==> is_digit(s[t]),
        s[i] != 48,
    ensures
        digits_value_spec(s, i, j) >= pow10((j - i - 1) as nat),
    decreases j - i,
{
    if j - 1 == i {
        assert(pow10(0) == 1) by {
            reveal_with_fuel(pow10, 1);
        };
    } else {
        lemma_digits_value_lower(s, i, j - 1);
        let prev = digits_value_spec(s, i, j - 1);
        let p = pow10((j - i - 2) as nat);
        assert(prev * 10 >= p * 10) by (nonlinear_arith)
            requires
                prev >= p,
        ;
    }
}

/// The bound on a digit run's value: below ten to the number of digits.
proof fn lemma_digits_value_bound(s: Seq<u8>, i: int, j: int)
    requires
        forall|t: int| i <= t < j ==> is_digit(s[t]),
    ensures
        0 <= digits_value_spec(s, i, j),
        j > i ==> digits_value_spec(s, i, j) < pow10((j - i) as nat),
    decreases j - i,
{
    if i < j {
        lemma_digits_value_bound(s, i, j - 1);
        let prev = digits_value_spec(s, i, j - 1);
        let p = pow10((j - 1 - i) as nat);
        if j - 1 > i {
            assert(prev * 10 + (s[j - 1] - 48) < 10 * p) by (nonlinear_arith)
                requires
                    prev < p,
                    0 <= s[j - 1] - 48 <= 9,
            ;
        }
        assert(prev * 10 >= 0) by (nonlinear_arith)
            requires
                prev >= 0,
        ;
    }
}

/// The concrete powers of ten the parser computes with.
proof fn lemma_pow10_13()
    ensures
        pow10(19) == 10000000000000000000,
        pow10(18) == 1000000000000000000,
        pow10(13) == 10000000000000,
        pow10(12) == 1000000000000,
        pow10(6) == 1000000,
        pow10(2) == 100,
{
    reveal_with_fuel(pow10, 21);
}

/// Parse the fixed-point number starting at `i`. Returns the value and
/// the position after it.
pub fn parse_fx(s: &Vec<u8>, i: usize) -> (r: Option<(i64, usize)>)
    requires
        i <= s@.len(),
    ensures
        ({
            match parse_fx_spec(s@, i as int) {
                Some((v, next)) => r matches Some(p) && p.0 == v && p.1 == next && next <= s@.len(),
                None => r is None,
            }
        }),
{
    let n = s.len();
    let neg = i < n && s[i] == 45;
    let i1 = if neg {
        i + 1
    } else {
        i
    };
    let j = digits_end(s, i1);
    if j == i1 {
        return None;
    }
    let z = zeros_end(s, i1);
    proof {
        lemma_zeros_within_digits(s@, i1 as int);
        lemma_digits_end_digits(s@, i1 as int);
        lemma_pow10_13();
    }
    let int_sat = j - z > MAX_INT_DIGITS;
    let mut ipart: i64 = 0;
    if !int_sat {
        let mut t: usize = z;
        while t < j
            invariant
                i1 <= z <= t <= j,
                j <= s@.len(),
                j - z <= MAX_INT_DIGITS,
                forall|u: int| i1 <= u < j ==> is_digit(s@[u]),
                ipart == digits_value_spec(s@, z as int, t as int),
                0 <= ipart < 1000000000000,
            decreases j - t,
        {
            proof {
                lemma_digits_value_bound(s@, z as int, t as int);
                lemma_digits_value_bound(s@, z as int, t as int + 1);
                lemma_pow10_monotone((t + 1 - z) as nat, 12);
                lemma_pow10_13();
            }
            ipart = ipart * 10 + ((s[t] - 48) as i64);
            t += 1;
        }
    }
    let has_frac = j < n && s[j] == 46;
    let mut frac: i64 = 0;
    let mut p = j;
    if has_frac {
        let k = digits_end(s, j + 1);
        if k == j + 1 {
            return None;
        }
        proof {
            lemma_digits_end_digits(s@, j as int + 1);
        }
        let e: usize = if k - (j + 1) > 6 {
            j + 7
        } else {
            k
        };
        let mut acc: i64 = 0;
        let mut u: usize = j + 1;
        while u < e
            invariant
                j + 1 <= u <= e,
                e <= k,
                e <= j + 1 + 6,
                k <= s@.len(),
                forall|w: int| j + 1 <= w < k ==> is_digit(s@[w]),
                acc == digits_value_spec(s@, j as int + 1, u as int),
                0 <= acc < 1000000,
            decreases e - u,
        {
            proof {
                lemma_digits_value_bound(s@, j as int + 1, u as int);
                lemma_digits_value_bound(s@, j as int + 1, u as int + 1);
                lemma_pow10_monotone((u + 1 - (j + 1)) as nat, 6);
                lemma_pow10_13();
            }
            acc = acc * 10 + ((s[u] - 48) as i64);
            u += 1;
        }
        let scale_pow = pow10_small((6 - (e - (j + 1))) as u64);
        proof {
            lemma_digits_value_bound(s@, j as int + 1, e as int);
            lemma_pow10_monotone((6 - (e - (j + 1))) as nat, 6);
            lemma_pow10_13();
            assert(0 <= acc * scale_pow < 1000000 * 1000000) by (nonlinear_arith)
                requires
                    0 <= acc < 1000000,
                    0 < scale_pow <= 1000000,
            ;
        }
        frac = acc * scale_pow;
        p = k;
    }
    proof {
        if !int_sat {
            lemma_digits_value_bound(s@, z as int, j as int);
            if z < j {
                lemma_pow10_monotone((j - z) as nat, 12);
            }
            lemma_pow10_13();
        }
    }
    let base: i64 = if int_sat {
        PROTO_SAT
    } else {
        ipart * SCALE + frac
    };
    let has_exp = p < n && (s[p] == 101 || s[p] == 69);
    if !has_exp {
        return Some(
            (
                if neg {
                    -base
                } else {
                    base
                },
                p,
            ),
        );
    }
    match parse_exponent(s, p, base) {
        Some((m, q)) => Some(
            (
                if neg {
                    -m
                } else {
                    m
                },
                q,
            ),
        ),
        None => None,
    }
}

/// Apply the exponent part at `p` to a nonnegative base magnitude.
#[verifier::rlimit(100)]
fn parse_exponent(s: &Vec<u8>, p: usize, base: i64) -> (r: Option<(i64, usize)>)
    requires
        p < s@.len(),
        0 <= base,
    ensures
        ({
            match parse_exp_spec(s@, p as int, base as int) {
                Some((m, next)) => r matches Some(t) && t.0 == m && t.1 == next && next
                    <= s@.len() && t.0 >= 0,
                None => r is None,
            }
        }),
{
    let n = s.len();
    let esigned = p + 1 < n && (s[p + 1] == 45 || s[p + 1] == 43);
    let eneg = p + 1 < n && s[p + 1] == 45;
    let e1 = if esigned {
        p + 2
    } else {
        p + 1
    };
    let q = digits_end(s, e1);
    if q == e1 {
        return None;
    }
    let ez = zeros_end(s, e1);
    proof {
        lemma_zeros_within_digits(s@, e1 as int);
        lemma_zeros_end_stops(s@, e1 as int);
        lemma_digits_end_digits(s@, e1 as int);
        lemma_pow10_13();
    }
    let ghost em = digits_value_spec(s@, ez as int, q as int);
    proof {
        lemma_digits_value_bound(s@, ez as int, q as int);
    }
    let m: i64 = if q - ez > 2 {
        // At least three significant exponent digits: the true exponent is
        // 100 or more, far past every representable magnitude.
        proof {
            lemma_digits_value_lower(s@, ez as int, q as int);
            lemma_pow10_monotone(2, (q - ez - 1) as nat);
            assert(em >= 100);
            lemma_pow10_monotone(19, em as nat);
            vstd::arithmetic::div_mod::lemma_basic_div(base as int, pow10(em as nat));
        }
        if eneg {
            0
        } else {
            saturate_up(base, Ghost(em))
        }
    } else {
        let mut ev: i64 = 0;
        let mut t2: usize = ez;
        while t2 < q
            invariant
                e1 <= ez <= t2 <= q,
                q <= s@.len(),
                q - ez <= 2,
                forall|w: int| e1 <= w < q ==> is_digit(s@[w]),
                ev == digits_value_spec(s@, ez as int, t2 as int),
                0 <= ev < 100,
            decreases q - t2,
        {
            proof {
                lemma_digits_value_bound(s@, ez as int, t2 as int);
                lemma_digits_value_bound(s@, ez as int, t2 as int + 1);
                lemma_pow10_monotone((t2 + 1 - ez) as nat, 2);
                lemma_pow10_13();
            }
            ev = ev * 10 + ((s[t2] - 48) as i64);
            t2 += 1;
        }
        if eneg {
            if ev > 18 {
                proof {
                    lemma_pow10_13();
                    lemma_pow10_monotone(19, em as nat);
                    vstd::arithmetic::div_mod::lemma_basic_div(base as int, pow10(em as nat));
                }
                0
            } else {
                let pw = pow10_small(ev as u64);
                proof {
                    vstd::arithmetic::div_mod::lemma_div_pos_is_pos(base as int, pw as int);
                }
                crate::fx::tdiv_exec(base as i128, pw as i128) as i64
            }
        } else {
            if ev > 18 {
                proof {
                    lemma_pow10_13();
                    lemma_pow10_monotone(19, em as nat);
                }
                saturate_up(base, Ghost(em))
            } else {
                let pw = pow10_small(ev as u64);
                proof {
                    assert(0 <= (base as int) * (pw as int) <= 0x7fffffffffffffff
                        * 1000000000000000000) by (nonlinear_arith)
                        requires
                            0 <= base <= 0x7fffffffffffffff,
                            0 < pw <= 1000000000000000000,
                    ;
                }
                let prod: i128 = (base as i128) * (pw as i128);
                if prod > PROTO_SAT as i128 {
                    PROTO_SAT
                } else {
                    prod as i64
                }
            }
        }
    };
    Some((m, q))
}

/// The saturated upward scaling for an exponent past every representable
/// magnitude: zero stays zero, everything else hits the cap.
fn saturate_up(base: i64, em: Ghost<int>) -> (r: i64)
    requires
        0 <= base,
        pow10(em@ as nat) > PROTO_SAT,
    ensures
        r == if base * pow10(em@ as nat) > PROTO_SAT {
            PROTO_SAT as int
        } else {
            base * pow10(em@ as nat)
        },
{
    if base == 0 {
        proof {
            assert((0int) * pow10(em@ as nat) == 0) by (nonlinear_arith);
        }
        0
    } else {
        proof {
            assert(base * pow10(em@ as nat) >= pow10(em@ as nat)) by (nonlinear_arith)
                requires
                    base >= 1,
                    pow10(em@ as nat) >= 1,
            ;
        }
        PROTO_SAT
    }
}

/// Ten to the `k` for `k` up to eighteen.
fn pow10_small(k: u64) -> (r: i64)
    requires
        k <= 18,
    ensures
        r == pow10(k as nat),
        0 < r <= PROTO_SAT,
{
    proof {
        reveal_with_fuel(pow10, 21);
    }
    match k {
        0 => 1,
        1 => 10,
        2 => 100,
        3 => 1000,
        4 => 10000,
        5 => 100000,
        6 => 1000000,
        7 => 10000000,
        8 => 100000000,
        9 => 1000000000,
        10 => 10000000000,
        11 => 100000000000,
        12 => 1000000000000,
        13 => 10000000000000,
        14 => 100000000000000,
        15 => 1000000000000000,
        16 => 10000000000000000,
        17 => 100000000000000000,
        _ => 1000000000000000000,
    }
}

/// Everything before the digit end is a digit.
proof fn lemma_digits_end_digits(s: Seq<u8>, i: int)
    requires
        0 <= i,
    ensures
        forall|t: int| i <= t < digits_end_spec(s, i) ==> is_digit(s[t]),
        i <= digits_end_spec(s, i) <= if i <= s.len() {
            s.len() as int
        } else {
            i
        },
    decreases s.len() - i,
{
    if 0 <= i < s.len() && is_digit(s[i]) {
        lemma_digits_end_digits(s, i + 1);
    }
}

/// `pow10` grows with its argument.
proof fn lemma_pow10_monotone(a: nat, b: nat)
    requires
        a <= b,
    ensures
        0 < pow10(a) <= pow10(b),
    decreases b,
{
    if b > 0 {
        if a == b {
            lemma_pow10_monotone((b - 1) as nat, (b - 1) as nat);
        } else {
            lemma_pow10_monotone(a, (b - 1) as nat);
        }
    }
}

/// Every byte of `digits_of(n)` is a digit, there is at least one, and the
/// first is not a minus sign.
proof fn lemma_digits_of_shape(n: nat)
    ensures
        digits_of(n).len() >= 1,
        forall|t: int| 0 <= t < digits_of(n).len() ==> is_digit(#[trigger] digits_of(n)[t]),
    decreases n,
{
    if n >= 10 {
        lemma_digits_of_shape(n / 10);
    }
}

/// A positive number's leading digit is not zero.
proof fn lemma_digits_of_first_nonzero(n: nat)
    requires
        n >= 1,
    ensures
        digits_of(n)[0] != 48,
    decreases n,
{
    if n >= 10 {
        vstd::arithmetic::div_mod::lemma_div_pos_is_pos(n as int, 10);
        vstd::arithmetic::div_mod::lemma_fundamental_div_mod(n as int, 10);
        vstd::arithmetic::div_mod::lemma_mod_bound(n as int, 10);
        assert(n / 10 >= 1);
        lemma_digits_of_first_nonzero(n / 10);
        lemma_digits_of_shape(n / 10);
    }
}

/// A number below `10^k` has at most `k` digits.
proof fn lemma_digits_of_len(n: nat, k: nat)
    requires
        k >= 1,
        n < pow10(k),
    ensures
        digits_of(n).len() <= k,
    decreases n,
{
    if n >= 10 {
        assert(k >= 2) by {
            reveal_with_fuel(pow10, 2);
        };
        assert(n / 10 < pow10((k - 1) as nat)) by {
            assert(pow10(k) == 10 * pow10((k - 1) as nat));
            vstd::arithmetic::div_mod::lemma_fundamental_div_mod(n as int, 10);
            vstd::arithmetic::div_mod::lemma_mod_bound(n as int, 10);
            assert(n / 10 < pow10((k - 1) as nat)) by (nonlinear_arith)
                requires
                    n < 10 * pow10((k - 1) as nat),
                    n / 10 <= n as int / 10,
                    10 * (n as int / 10) <= n,
            ;
        };
        lemma_digits_of_len(n / 10, (k - 1) as nat);
    }
}

/// Every byte of `frac_digits(n, k)` is a digit and there are exactly `k`.
proof fn lemma_frac_digits_shape(n: nat, k: nat)
    ensures
        frac_digits(n, k).len() == k,
        forall|t: int| 0 <= t < k ==> is_digit(#[trigger] frac_digits(n, k)[t]),
    decreases k,
{
    if k > 0 {
        lemma_frac_digits_shape(n / 10, (k - 1) as nat);
    }
}

/// A run of digits ending at the string's end or at a non-digit is exactly
/// what `digits_end_spec` walks past.
proof fn lemma_digits_end_run(s: Seq<u8>, i: int, j: int)
    requires
        0 <= i <= j <= s.len(),
        forall|t: int| i <= t < j ==> is_digit(s[t]),
        j == s.len() || !is_digit(s[j]),
    ensures
        digits_end_spec(s, i) == j,
    decreases j - i,
{
    if i < j {
        lemma_digits_end_run(s, i + 1, j);
    }
}

/// Reading back the digits of `n` gives `n`.
proof fn lemma_digits_value_of(s: Seq<u8>, i: int, j: int, n: nat)
    requires
        0 <= i,
        j == i + digits_of(n).len(),
        j <= s.len(),
        s.subrange(i, j) == digits_of(n),
    ensures
        digits_value_spec(s, i, j) == n,
    decreases n,
{
    lemma_digits_of_shape(n);
    vstd::arithmetic::div_mod::lemma_mod_bound(n as int, 10);
    if n < 10 {
        assert(s.subrange(i, j)[0] == s[i]);
        assert(s[i] == (48 + n) as u8);
        assert(digits_value_spec(s, i, j) == digits_value_spec(s, i, i) * 10 + (s[i] - 48));
    } else {
        let d = digits_of(n / 10);
        assert(s.subrange(i, j - 1) =~= d) by {
            assert forall|t: int| 0 <= t < d.len() implies s.subrange(i, j - 1)[t] == d[t] by {
                assert(s.subrange(i, j)[t] == s[t + i]);
                assert(s.subrange(i, j - 1)[t] == s[t + i]);
                assert(digits_of(n)[t] == d[t]);
            }
        };
        lemma_digits_value_of(s, i, j - 1, n / 10);
        assert(s.subrange(i, j)[j - 1 - i] == s[j - 1]);
        assert(digits_of(n)[j - 1 - i] == (48 + n % 10) as u8);
        assert(s[j - 1] == 48 + n % 10);
        vstd::arithmetic::div_mod::lemma_fundamental_div_mod(n as int, 10);
        assert(digits_value_spec(s, i, j) == digits_value_spec(s, i, j - 1) * 10 + (s[j - 1]
            - 48));
        assert((n / 10) * 10 + n % 10 == n);
    }
}

/// Reading back the `k` zero-padded digits of `n < 10^k` gives `n`.
proof fn lemma_frac_value_of(s: Seq<u8>, i: int, n: nat, k: nat)
    requires
        0 <= i,
        i + k <= s.len(),
        n < pow10(k),
        s.subrange(i, i + k) == frac_digits(n, k),
    ensures
        digits_value_spec(s, i, i + k) == n,
    decreases k,
{
    lemma_frac_digits_shape(n, k);
    if k == 0 {
        assert(pow10(0) == 1) by {
            reveal_with_fuel(pow10, 1);
        };
    } else {
        let d = frac_digits(n / 10, (k - 1) as nat);
        lemma_frac_digits_shape(n / 10, (k - 1) as nat);
        vstd::arithmetic::div_mod::lemma_mod_bound(n as int, 10);
        assert(s.subrange(i, i + k - 1) =~= d) by {
            assert forall|t: int| 0 <= t < d.len() implies s.subrange(i, i + k - 1)[t] == d[t] by {
                assert(s.subrange(i, i + k)[t] == s[t + i]);
                assert(s.subrange(i, i + k - 1)[t] == s[t + i]);
                assert(frac_digits(n, k)[t] == d[t]);
            }
        };
        assert(n / 10 < pow10((k - 1) as nat)) by {
            assert(pow10(k) == 10 * pow10((k - 1) as nat));
            vstd::arithmetic::div_mod::lemma_fundamental_div_mod(n as int, 10);
            vstd::arithmetic::div_mod::lemma_mod_bound(n as int, 10);
            assert(n / 10 < pow10((k - 1) as nat)) by (nonlinear_arith)
                requires
                    n < 10 * pow10((k - 1) as nat),
                    10 * (n as int / 10) <= n,
            ;
        };
        lemma_frac_value_of(s, i, n / 10, (k - 1) as nat);
        assert(s.subrange(i, i + k)[k - 1] == s[i + k - 1]);
        assert(frac_digits(n, k)[k - 1] == (48 + n % 10) as u8);
        assert(s[i + k - 1] == 48 + n % 10);
        vstd::arithmetic::div_mod::lemma_fundamental_div_mod(n as int, 10);
        assert(digits_value_spec(s, i, i + k) == digits_value_spec(s, i, i + k - 1) * 10 + (s[i + k
            - 1] - 48));
        assert((n / 10) * 10 + n % 10 == n);
    }
}

/// A rendered fixed-point value parses back to itself: when the rendering
/// of `v` stands at `i` and is not followed by another digit, the parser
/// returns exactly `v` and stops right after it.
proof fn lemma_parse_render_fx(s: Seq<u8>, i: int, v: int)
    requires
        0 <= i,
        vstd::math::abs(v) <= 1000000000000,
        i + render_fx_spec(v).len() <= s.len(),
        s.subrange(i, i + render_fx_spec(v).len()) == render_fx_spec(v),
        i + render_fx_spec(v).len() == s.len() || (!is_digit(s[i + render_fx_spec(v).len()]) && s[i
            + render_fx_spec(v).len()] != 101 && s[i + render_fx_spec(v).len()] != 69),
    ensures
        parse_fx_spec(s, i) == Some((v, i + render_fx_spec(v).len())),
{
    let m = vstd::math::abs(v) as int;
    let scale = SCALE as int;
    vstd::arithmetic::div_mod::lemma_div_pos_is_pos(m, scale);
    vstd::arithmetic::div_mod::lemma_mod_bound(m, scale);
    vstd::arithmetic::div_mod::lemma_div_is_ordered(m, 1000000000000, scale);
    let ip = (m / scale) as nat;
    let fp = (m % scale) as nat;
    let d = digits_of(ip);
    let f = frac_digits(fp, 6);
    let r = render_fx_spec(v);
    lemma_digits_of_shape(ip);
    lemma_frac_digits_shape(fp, 6);
    assert(ip < pow10(7) && 1 <= 7) by {
        reveal_with_fuel(pow10, 8);
    };
    lemma_digits_of_len(ip, 7);
    let sign: int = if v < 0 {
        1
    } else {
        0
    };
    let i1 = i + sign;
    let j = i1 + d.len();
    // The sign byte.
    assert(s.subrange(i, i + r.len())[0] == s[i]);
    if v < 0 {
        assert(r[0] == 45);
    } else {
        assert(r[0] == d[0]);
        assert(is_digit(s[i]) && s[i] != 45);
    }
    // The integer digit run and the dot after it.
    assert forall|t: int| i1 <= t < j implies s[t] == d[t - i1] && is_digit(s[t]) by {
        assert(s.subrange(i, i + r.len())[t - i] == s[t]);
        assert(r[t - i] == d[t - i1]);
    }
    assert(s.subrange(i, i + r.len())[j - i] == s[j]);
    assert(r[j - i] == 46);
    lemma_digits_end_run(s, i1, j);
    assert(digits_end_spec(s, i1) == j);
    assert(j - i1 <= 7);
    // The zero run: rendered whole parts have no leading zeros, except the
    // single digit of zero itself.
    if ip >= 1 {
        lemma_digits_of_first_nonzero(ip);
        assert(s[i1] == d[0]);
        assert(s[i1] != 48);
        assert(zeros_end_spec(s, i1) == i1);
    } else {
        assert(d =~= seq![48u8]);
        assert(s[i1] == 48 && j == i1 + 1);
        assert(s[i1 + 1] == 46);
        assert(zeros_end_spec(s, i1 + 1) == i1 + 1);
        assert(zeros_end_spec(s, i1) == i1 + 1);
    }
    // The fraction digit run and what follows it.
    assert forall|t: int| j + 1 <= t < j + 7 implies s[t] == f[t - (j + 1)] && is_digit(s[t]) by {
        assert(s.subrange(i, i + r.len())[t - i] == s[t]);
        assert(r[t - i] == f[t - (j + 1)]);
    }
    assert(j + 7 == i + r.len());
    lemma_digits_end_run(s, j + 1, j + 7);
    // Values.
    assert(s.subrange(i1, j) =~= d);
    lemma_digits_value_of(s, i1, j, ip);
    if ip == 0 {
        assert(digits_value_spec(s, j, j) == 0);
    }
    assert(s.subrange(j + 1, j + 7) =~= f);
    assert(fp < pow10(6)) by {
        reveal_with_fuel(pow10, 8);
    };
    lemma_frac_value_of(s, j + 1, fp, 6);
    assert(frac_value_spec(s, j + 1, j + 7) == fp * pow10(0));
    assert(pow10(0) == 1) by {
        reveal_with_fuel(pow10, 1);
    };
    vstd::arithmetic::div_mod::lemma_fundamental_div_mod(m, scale);
    assert(ip * scale + fp == m) by (nonlinear_arith)
        requires
            m == scale * (m / scale) + m % scale,
            ip == m / scale,
            fp == m % scale,
            scale == SCALE,
    ;
}

/// One control input line: steering and acceleration in micro-units.
#[derive(Copy, Clone, PartialEq, Eq, Structural, Debug)]
pub struct Input {
    /// Steering deflection.
    pub steering: i64,
    /// Acceleration deflection.
    pub acceleration: i64,
}

/// One state output line: position, heading and the collision flag.
#[derive(Copy, Clone, PartialEq, Eq, Structural, Debug)]
pub struct Output {
    /// Position, x, in micro-cells.
    pub x: i64,
    /// Position, y, in micro-cells.
    pub y: i64,
    /// Heading in micro-radians.
    pub angle: i64,
    /// Whether a collision was resolved in the tick.
    pub collision: bool,
}

/// The bytes of the word `steering`.
pub open spec fn key_steering() -> Seq<u8> {
    seq![115u8, 116u8, 101u8, 101u8, 114u8, 105u8, 110u8, 103u8]
}

/// The bytes of the word `acceleration`.
pub open spec fn key_acceleration() -> Seq<u8> {
    seq![97u8, 99u8, 99u8, 101u8, 108u8, 101u8, 114u8, 97u8, 116u8, 105u8, 111u8, 110u8]
}

/// Whether the quoted key `"steering"` stands at position `i`.
pub open spec fn steering_key_at(s: Seq<u8>, i: int) -> bool {
    &&& 0 <= i
    &&& i + 10 <= s.len()
    &&& s[i] == 34
    &&& s[i + 1] == 115
    &&& s[i + 2] == 116
    &&& s[i + 3] == 101
    &&& s[i + 4] == 101
    &&& s[i + 5] == 114
    &&& s[i + 6] == 105
    &&& s[i + 7] == 110
    &&& s[i + 8] == 103
    &&& s[i + 9] == 34
}

/// Whether the quoted key `"acceleration"` stands at position `i`.
pub open spec fn acceleration_key_at(s: Seq<u8>, i: int) -> bool {
    &&& 0 <= i
    &&& i + 14 <= s.len()
    &&& s[i] == 34
    &&& s[i + 1] == 97
    &&& s[i + 2] == 99
    &&& s[i + 3] == 99
    &&& s[i + 4] == 101
    &&& s[i + 5] == 108
    &&& s[i + 6] == 101
    &&& s[i + 7] == 114
    &&& s[i + 8] == 97
    &&& s[i + 9] == 116
    &&& s[i + 10] == 105
    &&& s[i + 11] == 111
    &&& s[i + 12] == 110
    &&& s[i + 13] == 34
}

/// The rendering of one input line:
/// `{"steering":<value>,"acceleration":<value>}`.
pub open spec fn render_input_spec(steering: int, acceleration: int) -> Seq<u8> {
    seq![123u8, 34u8] + key_steering() + seq![34u8, 58u8] + render_fx_spec(steering) + seq![
        44u8,
        34u8,
    ] + key_acceleration() + seq![34u8, 58u8] + render_fx_spec(acceleration) + seq![125u8]
}

/// The rendering of one output line:
/// `{"x":<value>,"y":<value>,"angle":<value>,"collision":<bool>}`.
pub open spec fn render_output_spec(o: Output) -> Seq<u8> {
    seq![123u8, 34u8, 120u8, 34u8, 58u8] + render_fx_spec(o.x as int) + seq![
        44u8,
        34u8,
        121u8,
        34u8,
        58u8,
    ] + render_fx_spec(o.y as int) + seq![
        44u8,
        34u8,
        97u8,
        110u8,
        103u8,
        108u8,
        101u8,
        34u8,
        58u8,
    ] + render_fx_spec(o.angle as int) + seq![
        44u8,
        34u8,
        99u8,
        111u8,
        108u8,
        108u8,
        105u8,
        115u8,
        105u8,
        111u8,
        110u8,
        34u8,
        58u8,
    ] + (if o.collision {
        seq![116u8, 114u8, 117u8, 101u8]
    } else {
        seq![102u8, 97u8, 108u8, 115u8, 101u8]
    }) + seq![125u8]
}

/// Render one input line.
#[verifier::rlimit(100)]
pub fn render_input_line(inp: &Input) -> (r: Vec<u8>)
    requires
        inp.steering != i64::MIN,
        inp.acceleration != i64::MIN,
    ensures
        r@ == render_input_spec(inp.steering as int, inp.acceleration as int),
{
    let mut out: Vec<u8> = Vec::new();
    out.push(123);
    out.push(34);
    out.push(115);
    out.push(116);
    out.push(101);
    out.push(101);
    out.push(114);
    out.push(105);
    out.push(110);
    out.push(103);
    out.push(34);
    out.push(58);
    push_fx(&mut out, inp.steering);
    proof {
        assert(out@ =~= seq![123u8, 34u8] + key_steering() + seq![34u8, 58u8] + render_fx_spec(
            inp.steering as int,
        ));
    }
    out.push(44);
    out.push(34);
    out.push(97);
    out.push(99);
    out.push(99);
    out.push(101);
    out.push(108);
    out.push(101);
    out.push(114);
    out.push(97);
    out.push(116);
    out.push(105);
    out.push(111);
    out.push(110);
    out.push(34);
    out.push(58);
    push_fx(&mut out, inp.acceleration);
    proof {
        assert(out@ =~= seq![123u8, 34u8] + key_steering() + seq![34u8, 58u8] + render_fx_spec(
            inp.steering as int,
        ) + seq![44u8, 34u8] + key_acceleration() + seq![34u8, 58u8] + render_fx_spec(
            inp.acceleration as int,
        ));
    }
    out.push(125);
    proof {
        assert(out@ =~= render_input_spec(inp.steering as int, inp.acceleration as int));
    }
    out
}

/// The rendering of an output line up to and including the angle value.
pub open spec fn render_output_prefix_spec(o: Output) -> Seq<u8> {
    seq![123u8, 34u8, 120u8, 34u8, 58u8] + render_fx_spec(o.x as int) + seq![
        44u8,
        34u8,
        121u8,
        34u8,
        58u8,
    ] + render_fx_spec(o.y as int) + seq![
        44u8,
        34u8,
        97u8,
        110u8,
        103u8,
        108u8,
        101u8,
        34u8,
        58u8,
    ] + render_fx_spec(o.angle as int)
}

/// Append position and heading fields of an output line.
#[verifier::rlimit(100)]
fn push_output_prefix(out: &mut Vec<u8>, o: &Output)
    requires
        o.x != i64::MIN,
        o.y != i64::MIN,
        o.angle != i64::MIN,
        old(out)@.len() == 0,
    ensures
        final(out)@ == render_output_prefix_spec(*o),
{
    out.push(123);
    out.push(34);
    out.push(120);
    out.push(34);
    out.push(58);
    push_fx(out, o.x);
    proof {
        assert(out@ =~= seq![123u8, 34u8, 120u8, 34u8, 58u8] + render_fx_spec(o.x as int));
    }
    out.push(44);
    out.push(34);
    out.push(121);
    out.push(34);
    out.push(58);
    push_fx(out, o.y);
    proof {
        assert(out@ =~= seq![123u8, 34u8, 120u8, 34u8, 58u8] + render_fx_spec(o.x as int) + seq![
            44u8,
            34u8,
            121u8,
            34u8,
            58u8,
        ] + render_fx_spec(o.y as int));
    }
    out.push(44);
    out.push(34);
    out.push(97);
    out.push(110);
    out.push(103);
    out.push(108);
    out.push(101);
    out.push(34);
    out.push(58);
    push_fx(out, o.angle);
    proof {
        assert(out@ =~= render_output_prefix_spec(*o));
    }
}

/// Render one output line.
#[verifier::rlimit(100)]
pub fn render_output_line(o: &Output) -> (r: Vec<u8>)
    requires
        o.x != i64::MIN,
        o.y != i64::MIN,
        o.angle != i64::MIN,
    ensures
        r@ == render_output_spec(*o),
{
    let mut out: Vec<u8> = Vec::new();
    push_output_prefix(&mut out, o);
    out.push(44);
    out.push(34);
    out.push(99);
    out.push(111);
    out.push(108);
    out.push(108);
    out.push(105);
    out.push(115);
    out.push(105);
    out.push(111);
    out.push(110);
    out.push(34);
    out.push(58);
    if o.collision {
        out.push(116);
        out.push(114);
        out.push(117);
        out.push(101);
    } else {
        out.push(102);
        out.push(97);
        out.push(108);
        out.push(115);
        out.push(101);
    }
    out.push(125);
    proof {
        assert(out@ =~= render_output_spec(*o));
    }
    out
}

/// The comma-separated join of the first `k` elements.
pub open spec fn join_upto(elems: Seq<Seq<u8>>, k: int) -> Seq<u8>
    decreases k,
{
    if k <= 0 {
        Seq::<u8>::empty()
    } else if k == 1 {
        elems[0]
    } else {
        join_upto(elems, k - 1) + seq![44u8] + elems[k - 1]
    }
}

/// A JSON array of pre-rendered elements.
pub open spec fn json_array(elems: Seq<Seq<u8>>) -> Seq<u8> {
    seq![91u8] + join_upto(elems, elems.len() as int) + seq![93u8]
}

/// The open-direction letters of one cell, each as a quoted string, in the
/// order north, west, south, east.
pub open spec fn cell_items(m: &crate::maze::MazeGrid, x: int, y: int) -> Seq<Seq<u8>> {
    (if m.passage_at(x, y, crate::maze::DIR_N as int) {
        seq![seq![34u8, 110u8, 34u8]]
    } else {
        Seq::<Seq<u8>>::empty()
    }) + (if m.passage_at(x, y, crate::maze::DIR_W as int) {
        seq![seq![34u8, 119u8, 34u8]]
    } else {
        Seq::<Seq<u8>>::empty()
    }) + (if m.passage_at(x, y, crate::maze::DIR_S as int) {
        seq![seq![34u8, 115u8, 34u8]]
    } else {
        Seq::<Seq<u8>>::empty()
    }) + (if m.passage_at(x, y, crate::maze::DIR_E as int) {
        seq![seq![34u8, 101u8, 34u8]]
    } else {
        Seq::<Seq<u8>>::empty()
    })
}

/// The JSON rendering of one cell's open directions.
pub open spec fn cell_json(m: &crate::maze::MazeGrid, x: int, y: int) -> Seq<u8> {
    json_array(cell_items(m, x, y))
}

/// The JSON rendering of one column of cells.
pub open spec fn col_json(m: &crate::maze::MazeGrid, x: int) -> Seq<u8> {
    json_array(Seq::new(crate::maze::MAZE_Y as nat, |y: int| cell_json(m, x, y)))
}

/// The maze line sent once at startup:
/// `{"x":25,"y":25,"passages":[...]}`, the passages array indexed column
/// first, then row.
pub open spec fn render_maze_spec(m: &crate::maze::MazeGrid) -> Seq<u8> {
    seq![123u8, 34u8, 120u8, 34u8, 58u8, 50u8, 53u8, 44u8, 34u8, 121u8, 34u8, 58u8, 50u8, 53u8, 44u8, 34u8, 112u8, 97u8, 115u8, 115u8, 97u8, 103u8, 101u8, 115u8, 34u8, 58u8]
        + json_array(Seq::new(crate::maze::MAZE_X as nat, |x: int| col_json(m, x))) + seq![125u8]
}

/// Append the quoted letters of one cell's open directions.
fn push_cell_json(out: &mut Vec<u8>, m: &crate::maze::MazeGrid, x: usize, y: usize)
    requires
        m.wf(),
        x < crate::maze::MAZE_X,
        y < crate::maze::MAZE_Y,
    ensures
        final(out)@ == old(out)@ + cell_json(m, x as int, y as int),
{
    let mut first = true;
    out.push(91);
    if m.has_passage(x, y, crate::maze::DIR_N) {
        out.push(34);
        out.push(110);
        out.push(34);
        first = false;
    }
    if m.has_passage(x, y, crate::maze::DIR_W) {
        if !first {
            out.push(44);
        }
        out.push(34);
        out.push(119);
        out.push(34);
        first = false;
    }
    if m.has_passage(x, y, crate::maze::DIR_S) {
        if !first {
            out.push(44);
        }
        out.push(34);
        out.push(115);
        out.push(34);
        first = false;
    }
    if m.has_passage(x, y, crate::maze::DIR_E) {
        if !first {
            out.push(44);
        }
        out.push(34);
        out.push(101);
        out.push(34);
        first = false;
    }
    out.push(93);
    proof {
        reveal_with_fuel(join_upto, 6);
        assert(final(out)@ =~= old(out)@ + cell_json(m, x as int, y as int));
    }
}

/// Append the JSON rendering of one column of cells.
fn push_col_json(out: &mut Vec<u8>, m: &crate::maze::MazeGrid, x: usize)
    requires
        m.wf(),
        x < crate::maze::MAZE_X,
    ensures
        final(out)@ == old(out)@ + col_json(m, x as int),
{
    let ghost cells = Seq::new(crate::maze::MAZE_Y as nat, |y: int| cell_json(m, x as int, y));
    out.push(91);
    let mut y: usize = 0;
    while y < crate::maze::MAZE_Y
        invariant
            m.wf(),
            x < crate::maze::MAZE_X,
            y <= crate::maze::MAZE_Y,
            cells == Seq::new(crate::maze::MAZE_Y as nat, |yy: int| cell_json(m, x as int, yy)),
            out@ == old(out)@ + seq![91u8] + join_upto(cells, y as int),
        decreases crate::maze::MAZE_Y - y,
    {
        if y > 0 {
            out.push(44);
        }
        push_cell_json(out, m, x, y);
        proof {
            assert(out@ =~= old(out)@ + seq![91u8] + join_upto(cells, y as int + 1));
        }
        y += 1;
    }
    out.push(93);
    proof {
        assert(final(out)@ =~= old(out)@ + col_json(m, x as int));
    }
}

/// Render the startup maze line.
pub fn render_maze_json(m: &crate::maze::MazeGrid) -> (r: Vec<u8>)
    requires
        m.wf(),
    ensures
        r@ == render_maze_spec(m),
{
    let ghost cols = Seq::new(crate::maze::MAZE_X as nat, |x: int| col_json(m, x));
    let mut out: Vec<u8> = Vec::new();
    out.push(123);
    out.push(34);
    out.push(120);
    out.push(34);
    out.push(58);
    out.push(50);
    out.push(53);
    out.push(44);
    out.push(34);
    out.push(121);
    out.push(34);
    out.push(58);
    out.push(50);
    out.push(53);
    out.push(44);
    out.push(34);
    out.push(112);
    out.push(97);
    out.push(115);
    out.push(115);
    out.push(97);
    out.push(103);
    out.push(101);
    out.push(115);
    out.push(34);
    out.push(58);
    let ghost head = out@;
    out.push(91);
    let mut x: usize = 0;
    while x < crate::maze::MAZE_X
        invariant
            m.wf(),
            x <= crate::maze::MAZE_X,
            cols == Seq::new(crate::maze::MAZE_X as nat, |xx: int| col_json(m, xx)),
            out@ == head + seq![91u8] + join_upto(cols, x as int),
            head.len() == 26,
        decreases crate::maze::MAZE_X - x,
    {
        if x > 0 {
            out.push(44);
        }
        push_col_json(&mut out, m, x);
        proof {
            assert(out@ =~= head + seq![91u8] + join_upto(cols, x as int + 1));
        }
        x += 1;
    }
    out.push(93);
    out.push(125);
    proof {
        assert(out@ =~= render_maze_spec(m));
    }
    out
}

/// How deeply nested a skipped member value may be, as JSON parsers bound
/// their recursion.
pub const VALUE_DEPTH_LIMIT: usize = 126;

/// Longest accepted protocol line, a machine limit that keeps the parse
/// fuel within `usize`.
pub const MAX_LINE_BYTES: usize = 100000000;

/// The position after the body of a JSON string whose opening quote was
/// already consumed: scans to the closing quote, stepping over backslash
/// escapes. `None` when the string is unterminated.
pub open spec fn string_end_spec(s: Seq<u8>, i: int) -> Option<int>
    decreases s.len() - i,
{
    if !(0 <= i < s.len()) {
        None
    } else if s[i] == 34 {
        Some(i + 1)
    } else if s[i] == 92 {
        if i + 1 < s.len() {
            string_end_spec(s, i + 2)
        } else {
            None
        }
    } else {
        string_end_spec(s, i + 1)
    }
}

/// The position after a JSON string starting (with its quote) at `i`.
pub open spec fn skip_string_spec(s: Seq<u8>, i: int) -> Option<int> {
    if 0 <= i < s.len() && s[i] == 34 {
        string_end_spec(s, i + 1)
    } else {
        None
    }
}

/// The position after one whole JSON value starting at `i`: a string, an
/// object, an array, a literal or a number. `fuel` bounds the total walk
/// and `depth` the container nesting.
pub open spec fn skip_value_spec(s: Seq<u8>, i: int, fuel: nat, depth: nat) -> Option<int>
    decreases fuel,
{
    if fuel == 0 || !(0 <= i < s.len()) {
        None
    } else if s[i] == 34 {
        skip_string_spec(s, i)
    } else if s[i] == 123 {
        if depth == 0 {
            None
        } else {
            skip_object_body_spec(
                s,
                skip_ws_spec(s, i + 1),
                (fuel - 1) as nat,
                (depth - 1) as nat,
            )
        }
    } else if s[i] == 91 {
        if depth == 0 {
            None
        } else {
            skip_array_body_spec(s, skip_ws_spec(s, i + 1), (fuel - 1) as nat, (depth - 1) as nat)
        }
    } else if s[i] == 116 {
        if i + 4 <= s.len() && s[i + 1] == 114 && s[i + 2] == 117 && s[i + 3] == 101 {
            Some(i + 4)
        } else {
            None
        }
    } else if s[i] == 102 {
        if i + 5 <= s.len() && s[i + 1] == 97 && s[i + 2] == 108 && s[i + 3] == 115 && s[i + 4]
            == 101 {
            Some(i + 5)
        } else {
            None
        }
    } else if s[i] == 110 {
        if i + 4 <= s.len() && s[i + 1] == 117 && s[i + 2] == 108 && s[i + 3] == 108 {
            Some(i + 4)
        } else {
            None
        }
    } else {
        match parse_fx_spec(s, i) {
            Some((v, p)) => Some(p),
            None => None,
        }
    }
}

/// The position after an array body whose `[` was already consumed, `i`
/// standing at the first element or the closing bracket.
pub open spec fn skip_array_body_spec(s: Seq<u8>, i: int, fuel: nat, depth: nat) -> Option<int>
    decreases fuel,
{
    if fuel == 0 {
        None
    } else if 0 <= i < s.len() && s[i] == 93 {
        Some(i + 1)
    } else {
        match skip_value_spec(s, i, (fuel - 1) as nat, depth) {
            None => None,
            Some(p) => {
                let p1 = skip_ws_spec(s, p);
                if p1 < s.len() && s[p1] == 44 {
                    skip_array_body_spec(s, skip_ws_spec(s, p1 + 1), (fuel - 1) as nat, depth)
                } else if p1 < s.len() && s[p1] == 93 {
                    Some(p1 + 1)
                } else {
                    None
                }
            },
        }
    }
}

/// The position after an object body whose `{` was already consumed, `i`
/// standing at the first key or the closing brace.
pub open spec fn skip_object_body_spec(s: Seq<u8>, i: int, fuel: nat, depth: nat) -> Option<int>
    decreases fuel,
{
    if fuel == 0 {
        None
    } else if 0 <= i < s.len() && s[i] == 125 {
        Some(i + 1)
    } else {
        match skip_string_spec(s, i) {
            None => None,
            Some(p) => {
                let p1 = skip_ws_spec(s, p);
                if !(p1 < s.len() && s[p1] == 58) {
                    None
                } else {
                    match skip_value_spec(
                        s,
                        skip_ws_spec(s, p1 + 1),
                        (fuel - 1) as nat,
                        depth,
                    ) {
                        None => None,
                        Some(q) => {
                            let q1 = skip_ws_spec(s, q);
                            if q1 < s.len() && s[q1] == 44 {
                                skip_object_body_spec(
                                    s,
                                    skip_ws_spec(s, q1 + 1),
                                    (fuel - 1) as nat,
                                    depth,
                                )
                            } else if q1 < s.len() && s[q1] == 125 {
                                Some(q1 + 1)
                            } else {
                                None
                            }
                        },
                    }
                }
            },
        }
    }
}

/// Which of the two input keys stands at a position.
pub open spec fn key_at(s: Seq<u8>, i: int) -> Option<(bool, int)> {
    if steering_key_at(s, i) {
        Some((true, i + 10))
    } else if acceleration_key_at(s, i) {
        Some((false, i + 14))
    } else {
        None
    }
}

/// One member of the input object and everything after it: the two known
/// keys bind fixed-point numbers (a second binding of the same key is an
/// error), any other member is skipped whole; members are separated by
/// commas and the object ends the line. Returns steering and acceleration
/// once both were bound.
pub open spec fn parse_members_spec(
    s: Seq<u8>,
    i: int,
    st: Option<int>,
    ac: Option<int>,
    fuel: nat,
) -> Option<(int, int)>
    decreases fuel,
{
    if fuel == 0 {
        None
    } else {
        match key_at(s, i) {
            Some((is_steering, p)) => {
                if is_steering && st is Some {
                    None
                } else if !is_steering && ac is Some {
                    None
                } else {
                    let p1 = skip_ws_spec(s, p);
                    if !(p1 < s.len() && s[p1] == 58) {
                        None
                    } else {
                        match parse_fx_spec(s, skip_ws_spec(s, p1 + 1)) {
                            None => None,
                            Some((v, q)) => {
                                let st2 = if is_steering {
                                    Some(v)
                                } else {
                                    st
                                };
                                let ac2 = if is_steering {
                                    ac
                                } else {
                                    Some(v)
                                };
                                let q1 = skip_ws_spec(s, q);
                                if q1 < s.len() && s[q1] == 44 {
                                    parse_members_spec(
                                        s,
                                        skip_ws_spec(s, q1 + 1),
                                        st2,
                                        ac2,
                                        (fuel - 1) as nat,
                                    )
                                } else if q1 < s.len() && s[q1] == 125 {
                                    if skip_ws_spec(s, q1 + 1) == s.len() {
                                        match (st2, ac2) {
                                            (Some(a), Some(b)) => Some((a, b)),
                                            _ => None,
                                        }
                                    } else {
                                        None
                                    }
                                } else {
                                    None
                                }
                            },
                        }
                    }
                }
            },
            None => {
                match skip_string_spec(s, i) {
                    None => None,
                    Some(p) => {
                        let p1 = skip_ws_spec(s, p);
                        if !(p1 < s.len() && s[p1] == 58) {
                            None
                        } else {
                            match skip_value_spec(
                                s,
                                skip_ws_spec(s, p1 + 1),
                                (fuel - 1) as nat,
                                VALUE_DEPTH_LIMIT as nat,
                            ) {
                                None => None,
                                Some(q) => {
                                    let q1 = skip_ws_spec(s, q);
                                    if q1 < s.len() && s[q1] == 44 {
                                        parse_members_spec(
                                            s,
                                            skip_ws_spec(s, q1 + 1),
                                            st,
                                            ac,
                                            (fuel - 1) as nat,
                                        )
                                    } else if q1 < s.len() && s[q1] == 125 {
                                        if skip_ws_spec(s, q1 + 1) == s.len() {
                                            match (st, ac) {
                                                (Some(a), Some(b)) => Some((a, b)),
                                                _ => None,
                                            }
                                        } else {
                                            None
                                        }
                                    } else {
                                        None
                                    }
                                },
                            }
                        }
                    },
                }
            },
        }
    }
}

/// The parse fuel for one line.
pub open spec fn line_fuel(s: Seq<u8>) -> nat {
    (8 * s.len() + 16) as nat
}

/// The parse of one input line: a JSON object whose members include, once
/// each, the two input keys bound to numbers; other members are skipped;
/// whitespace may stand between tokens; nothing but whitespace may follow
/// the object. Key bytes are matched literally (no escape processing), and
/// a line beyond `MAX_LINE_BYTES` is rejected outright. Returns steering
/// and acceleration.
pub open spec fn parse_input_spec(s: Seq<u8>) -> Option<(int, int)> {
    if s.len() > MAX_LINE_BYTES {
        None
    } else {
        let i0 = skip_ws_spec(s, 0);
        if !(i0 < s.len() && s[i0] == 123) {
            None
        } else {
            parse_members_spec(
                s,
                skip_ws_spec(s, i0 + 1),
                None,
                None,
                line_fuel(s),
            )
        }
    }
}

/// Try to read a quoted `steering` key at `i`.
fn match_steering(s: &Vec<u8>, i: usize) -> (r: bool)
    requires
        i <= s@.len(),
    ensures
        r == steering_key_at(s@, i as int),
{
    if s.len() - i < 10 {
        return false;
    }
    s[i] == 34 && s[i + 1] == 115 && s[i + 2] == 116 && s[i + 3] == 101 && s[i + 4] == 101
        && s[i + 5] == 114 && s[i + 6] == 105 && s[i + 7] == 110 && s[i + 8] == 103 && s[i + 9]
        == 34
}

/// Try to read a quoted `acceleration` key at `i`.
fn match_acceleration(s: &Vec<u8>, i: usize) -> (r: bool)
    requires
        i <= s@.len(),
    ensures
        r == acceleration_key_at(s@, i as int),
{
    if s.len() - i < 14 {
        return false;
    }
    s[i] == 34 && s[i + 1] == 97 && s[i + 2] == 99 && s[i + 3] == 99 && s[i + 4] == 101
        && s[i + 5] == 108 && s[i + 6] == 101 && s[i + 7] == 114 && s[i + 8] == 97 && s[i + 9]
        == 116 && s[i + 10] == 105 && s[i + 11] == 111 && s[i + 12] == 110 && s[i + 13] == 34
}

/// Read one of the two keys at `i`: which one, and the position after it.
fn read_key(s: &Vec<u8>, i: usize) -> (r: Option<(bool, usize)>)
    requires
        i <= s@.len(),
    ensures
        ({
            match key_at(s@, i as int) {
                Some((st, next)) => r matches Some(p) && p.0 == st && p.1 == next && next
                    <= s@.len(),
                None => r is None,
            }
        }),
{
    // Reading the length pins `s@.len()` under `usize::MAX`, so the
    // position arithmetic below cannot overflow.
    let n = s.len();
    if match_steering(s, i) {
        proof {
            assert(i + 10 <= n);
        }
        Some((true, i + 10))
    } else if match_acceleration(s, i) {
        proof {
            assert(i + 14 <= n);
        }
        Some((false, i + 14))
    } else {
        None
    }
}

/// Step past a JSON string whose opening quote was already consumed.
fn string_end(s: &Vec<u8>, start: usize) -> (r: Option<usize>)
    requires
        start <= s@.len(),
    ensures
        ({
            match string_end_spec(s@, start as int) {
                Some(p) => r matches Some(t) && t == p && t <= s@.len(),
                None => r is None,
            }
        }),
{
    let mut i = start;
    loop
        invariant
            i <= s@.len(),
            string_end_spec(s@, start as int) == string_end_spec(s@, i as int),
        decreases s@.len() - i,
    {
        if i >= s.len() {
            return None;
        }
        let b = s[i];
        if b == 34 {
            return Some(i + 1);
        } else if b == 92 {
            if i + 1 < s.len() {
                i = i + 2;
            } else {
                return None;
            }
        } else {
            i = i + 1;
        }
    }
}

/// Step past a JSON string starting (with its quote) at `i`.
fn skip_string(s: &Vec<u8>, i: usize) -> (r: Option<usize>)
    requires
        i <= s@.len(),
    ensures
        ({
            match skip_string_spec(s@, i as int) {
                Some(p) => r matches Some(t) && t == p && t <= s@.len(),
                None => r is None,
            }
        }),
{
    if i < s.len() && s[i] == 34 {
        string_end(s, i + 1)
    } else {
        None
    }
}

/// Step past one whole JSON value.
fn skip_value(s: &Vec<u8>, i: usize, fuel: usize, depth: usize) -> (r: Option<usize>)
    requires
        i <= s@.len(),
    ensures
        ({
            match skip_value_spec(s@, i as int, fuel as nat, depth as nat) {
                Some(p) => r matches Some(t) && t == p && t <= s@.len(),
                None => r is None,
            }
        }),
    decreases fuel,
{
    if fuel == 0 || i >= s.len() {
        return None;
    }
    let b = s[i];
    if b == 34 {
        skip_string(s, i)
    } else if b == 123 {
        if depth == 0 {
            None
        } else {
            let j = skip_ws(s, i + 1);
            skip_object_body(s, j, fuel - 1, depth - 1)
        }
    } else if b == 91 {
        if depth == 0 {
            None
        } else {
            let j = skip_ws(s, i + 1);
            skip_array_body(s, j, fuel - 1, depth - 1)
        }
    } else if b == 116 {
        if s.len() - i >= 4 && s[i + 1] == 114 && s[i + 2] == 117 && s[i + 3] == 101 {
            Some(i + 4)
        } else {
            None
        }
    } else if b == 102 {
        if s.len() - i >= 5 && s[i + 1] == 97 && s[i + 2] == 108 && s[i + 3] == 115 && s[i + 4]
            == 101 {
            Some(i + 5)
        } else {
            None
        }
    } else if b == 110 {
        if s.len() - i >= 4 && s[i + 1] == 117 && s[i + 2] == 108 && s[i + 3] == 108 {
            Some(i + 4)
        } else {
            None
        }
    } else {
        match parse_fx(s, i) {
            Some((_, p)) => Some(p),
            None => None,
        }
    }
}

/// Step past an array body whose `[` was already consumed.
fn skip_array_body(s: &Vec<u8>, start: usize, start_fuel: usize, depth: usize) -> (r: Option<
    usize,
>)
    requires
        start <= s@.len(),
    ensures
        ({
            match skip_array_body_spec(s@, start as int, start_fuel as nat, depth as nat) {
                Some(p) => r matches Some(t) && t == p && t <= s@.len(),
                None => r is None,
            }
        }),
    decreases start_fuel,
{
    let mut i = start;
    let mut fuel = start_fuel;
    loop
        invariant
            i <= s@.len(),
            fuel <= start_fuel,
            skip_array_body_spec(s@, start as int, start_fuel as nat, depth as nat)
                == skip_array_body_spec(s@, i as int, fuel as nat, depth as nat),
        decreases fuel,
    {
        if fuel == 0 {
            return None;
        }
        if i < s.len() && s[i] == 93 {
            return Some(i + 1);
        }
        let p = match skip_value(s, i, fuel - 1, depth) {
            Some(p) => p,
            None => {
                return None;
            },
        };
        let p1 = skip_ws(s, p);
        if p1 < s.len() && s[p1] == 44 {
            i = skip_ws(s, p1 + 1);
            fuel = fuel - 1;
        } else if p1 < s.len() && s[p1] == 93 {
            return Some(p1 + 1);
        } else {
            return None;
        }
    }
}

/// Step past an object body whose `{` was already consumed.
fn skip_object_body(s: &Vec<u8>, start: usize, start_fuel: usize, depth: usize) -> (r: Option<
    usize,
>)
    requires
        start <= s@.len(),
    ensures
        ({
            match skip_object_body_spec(s@, start as int, start_fuel as nat, depth as nat) {
                Some(p) => r matches Some(t) && t == p && t <= s@.len(),
                None => r is None,
            }
        }),
    decreases start_fuel,
{
    let mut i = start;
    let mut fuel = start_fuel;
    loop
        invariant
            i <= s@.len(),
            fuel <= start_fuel,
            skip_object_body_spec(s@, start as int, start_fuel as nat, depth as nat)
                == skip_object_body_spec(s@, i as int, fuel as nat, depth as nat),
        decreases fuel,
    {
        if fuel == 0 {
            return None;
        }
        if i < s.len() && s[i] == 125 {
            return Some(i + 1);
        }
        let p = match skip_string(s, i) {
            Some(p) => p,
            None => {
                return None;
            },
        };
        let p1 = skip_ws(s, p);
        if !(p1 < s.len() && s[p1] == 58) {
            return None;
        }
        let v = skip_ws(s, p1 + 1);
        let q = match skip_value(s, v, fuel - 1, depth) {
            Some(q) => q,
            None => {
                return None;
            },
        };
        let q1 = skip_ws(s, q);
        if q1 < s.len() && s[q1] == 44 {
            i = skip_ws(s, q1 + 1);
            fuel = fuel - 1;
        } else if q1 < s.len() && s[q1] == 125 {
            return Some(q1 + 1);
        } else {
            return None;
        }
    }
}

/// The spec-level view of an optional bound value.
pub open spec fn opt_int(o: Option<i64>) -> Option<int> {
    match o {
        Some(v) => Some(v as int),
        None => None,
    }
}

/// Parse one input line. Returns the raw (unclamped) steering and
/// acceleration exactly when the line matches `parse_input_spec`.
pub fn parse_input_line(s: &Vec<u8>) -> (r: Option<Input>)
    ensures
        ({
            match parse_input_spec(s@) {
                Some((st, ac)) => r matches Some(inp) && inp.steering == st && inp.acceleration
                    == ac,
                None => r is None,
            }
        }),
{
    if s.len() > MAX_LINE_BYTES {
        return None;
    }
    let i0 = skip_ws(s, 0);
    if !(i0 < s.len() && s[i0] == 123) {
        return None;
    }
    let start = skip_ws(s, i0 + 1);
    let start_fuel = 8 * s.len() + 16;
    let mut i = start;
    let mut fuel = start_fuel;
    let mut st: Option<i64> = None;
    let mut ac: Option<i64> = None;
    loop
        invariant
            i <= s@.len(),
            fuel <= start_fuel,
            parse_members_spec(s@, start as int, None, None, start_fuel as nat)
                == parse_members_spec(s@, i as int, opt_int(st), opt_int(ac), fuel as nat),
            parse_input_spec(s@) == parse_members_spec(
                s@,
                start as int,
                None,
                None,
                start_fuel as nat,
            ),
        decreases fuel,
    {
        if fuel == 0 {
            return None;
        }
        match read_key(s, i) {
            Some((is_steering, p)) => {
                if is_steering && st.is_some() {
                    return None;
                }
                if !is_steering && ac.is_some() {
                    return None;
                }
                let p1 = skip_ws(s, p);
                if !(p1 < s.len() && s[p1] == 58) {
                    return None;
                }
                let vstart = skip_ws(s, p1 + 1);
                let (v, q) = match parse_fx(s, vstart) {
                    Some(t) => t,
                    None => {
                        return None;
                    },
                };
                if is_steering {
                    st = Some(v);
                } else {
                    ac = Some(v);
                }
                let q1 = skip_ws(s, q);
                if q1 < s.len() && s[q1] == 44 {
                    i = skip_ws(s, q1 + 1);
                    fuel = fuel - 1;
                } else if q1 < s.len() && s[q1] == 125 {
                    if skip_ws(s, q1 + 1) != s.len() {
                        return None;
                    }
                    return match (st, ac) {
                        (Some(a), Some(b)) => Some(Input { steering: a, acceleration: b }),
                        _ => None,
                    };
                } else {
                    return None;
                }
            },
            None => {
                let p = match skip_string(s, i) {
                    Some(p) => p,
                    None => {
                        return None;
                    },
                };
                let p1 = skip_ws(s, p);
                if !(p1 < s.len() && s[p1] == 58) {
                    return None;
                }
                let vstart = skip_ws(s, p1 + 1);
                let q = match skip_value(s, vstart, fuel - 1, VALUE_DEPTH_LIMIT) {
                    Some(q) => q,
                    None => {
                        return None;
                    },
                };
                let q1 = skip_ws(s, q);
                if q1 < s.len() && s[q1] == 44 {
                    i = skip_ws(s, q1 + 1);
                    fuel = fuel - 1;
                } else if q1 < s.len() && s[q1] == 125 {
                    if skip_ws(s, q1 + 1) != s.len() {
                        return None;
                    }
                    return match (st, ac) {
                        (Some(a), Some(b)) => Some(Input { steering: a, acceleration: b }),
                        _ => None,
                    };
                } else {
                    return None;
                }
            },
        }
    }
}

/// PROTOCOL ROUND-TRIP. A control line rendered from any in-range steering
/// and acceleration values parses back to exactly those values.
#[verifier::rlimit(100)]
pub proof fn lemma_input_roundtrip(st: int, ac: int)
    requires
        vstd::math::abs(st) <= 1000000000000,
        vstd::math::abs(ac) <= 1000000000000,
    ensures
        parse_input_spec(render_input_spec(st, ac)) == Some((st, ac)),
{
    let s = render_input_spec(st, ac);
    let r1 = render_fx_spec(st);
    let r2 = render_fx_spec(ac);
    let l1 = r1.len() as int;
    let l2 = r2.len() as int;
    let head = seq![123u8, 34u8] + key_steering() + seq![34u8, 58u8];
    let mid = seq![44u8, 34u8] + key_acceleration() + seq![34u8, 58u8];
    assert(head.len() == 12);
    assert(mid.len() == 16);
    assert(s =~= head + r1 + mid + r2 + seq![125u8]);
    assert(s.len() == 29 + l1 + l2);
    // The rendered numbers are short, so the line is far below the cap.
    assert(l1 <= 15 && l2 <= 15) by {
        let scale = SCALE as int;
        vstd::arithmetic::div_mod::lemma_div_pos_is_pos(vstd::math::abs(st) as int, scale);
        vstd::arithmetic::div_mod::lemma_div_pos_is_pos(vstd::math::abs(ac) as int, scale);
        vstd::arithmetic::div_mod::lemma_div_is_ordered(
            vstd::math::abs(st) as int,
            1000000000000,
            scale,
        );
        vstd::arithmetic::div_mod::lemma_div_is_ordered(
            vstd::math::abs(ac) as int,
            1000000000000,
            scale,
        );
        assert(pow10(7) == 10000000) by {
            reveal_with_fuel(pow10, 8);
        };
        lemma_digits_of_len((vstd::math::abs(st) as int / (SCALE as int)) as nat, 7);
        lemma_digits_of_len((vstd::math::abs(ac) as int / (SCALE as int)) as nat, 7);
        lemma_frac_digits_shape((vstd::math::abs(st) as int % (SCALE as int)) as nat, 6);
        lemma_frac_digits_shape((vstd::math::abs(ac) as int % (SCALE as int)) as nat, 6);
    };
    assert(s.len() <= MAX_LINE_BYTES);
    // Every literal byte of the line.
    assert(s[0] == 123 && s[1] == 34 && s[2] == 115 && s[3] == 116 && s[4] == 101 && s[5] == 101
        && s[6] == 114 && s[7] == 105 && s[8] == 110 && s[9] == 103 && s[10] == 34 && s[11] == 58);
    assert(s[12 + l1] == 44 && s[13 + l1] == 34 && s[14 + l1] == 97 && s[15 + l1] == 99 && s[16
        + l1] == 99 && s[17 + l1] == 101 && s[18 + l1] == 108 && s[19 + l1] == 101 && s[20 + l1]
        == 114 && s[21 + l1] == 97 && s[22 + l1] == 116 && s[23 + l1] == 105 && s[24 + l1] == 111
        && s[25 + l1] == 110 && s[26 + l1] == 34 && s[27 + l1] == 58);
    assert(s[28 + l1 + l2] == 125);
    // The two rendered numbers stand at their positions.
    assert(s.subrange(12, 12 + l1) =~= r1) by {
        assert forall|t: int| 0 <= t < l1 implies s.subrange(12, 12 + l1)[t] == r1[t] by {
            assert(s[12 + t] == r1[t]);
        }
    };
    assert(s.subrange(28 + l1, 28 + l1 + l2) =~= r2) by {
        assert forall|t: int| 0 <= t < l2 implies s.subrange(28 + l1, 28 + l1 + l2)[t] == r2[t] by {
            assert(s[28 + l1 + t] == r2[t]);
        }
    };
    lemma_parse_render_fx(s, 12, st);
    lemma_parse_render_fx(s, 28 + l1, ac);
    // Walk the parse: object head.
    assert(skip_ws_spec(s, 0) == 0);
    assert(skip_ws_spec(s, 1) == 1);
    let fuel = line_fuel(s);
    assert(fuel >= 2);
    // First member: the steering key and its value.
    assert(steering_key_at(s, 1));
    assert(key_at(s, 1) == Some((true, 11int)));
    assert(skip_ws_spec(s, 11) == 11);
    assert(skip_ws_spec(s, 12) == 12) by {
        assert(s[12] == r1[0]);
        assert(!is_ws(r1[0]));
    };
    assert(parse_fx_spec(s, 12) == Some((st, 12 + l1)));
    assert(skip_ws_spec(s, 12 + l1) == 12 + l1);
    assert(skip_ws_spec(s, 13 + l1) == 13 + l1);
    // Second member: the acceleration key, its value, and the line's end.
    assert(!steering_key_at(s, 13 + l1));
    assert(acceleration_key_at(s, 13 + l1));
    assert(key_at(s, 13 + l1) == Some((false, 27 + l1)));
    assert(skip_ws_spec(s, 27 + l1) == 27 + l1);
    assert(skip_ws_spec(s, 28 + l1) == 28 + l1) by {
        assert(s[28 + l1] == r2[0]);
        assert(!is_ws(r2[0]));
    };
    assert(parse_fx_spec(s, 28 + l1) == Some((ac, 28 + l1 + l2)));
    assert(skip_ws_spec(s, 28 + l1 + l2) == 28 + l1 + l2);
    assert(skip_ws_spec(s, 29 + l1 + l2) == 29 + l1 + l2);
    assert(parse_members_spec(s, 13 + l1, Some(st), None, (fuel - 1) as nat) == Some((st, ac)));
    assert(parse_members_spec(s, 1, None, None, fuel) == Some((st, ac)));
}

} // verus!
