//! The numeric literal model.
//!
//! Attribute values and path-data arguments are signed decimal literals with
//! an optional fraction and exponent.  The crate models such a literal
//! exactly, as a normalized decimal `(-1)^neg * mant * 10^exp`: the mantissa
//! never ends in a zero digit, zero itself is stored in one canonical form,
//! and the power of ten is kept small enough that the canonical rendering is
//! short.  Two literals denote the same decimal value exactly when their
//! normalized forms are structurally equal, so `10`, `10.0` and `1e1` all
//! parse to one value.
//!
//! A literal whose normalized mantissa does not fit in 64 bits, or whose
//! adjusted power of ten falls outside the kept range, is a reported hard
//! failure rather than a rounded value: the model trades unbounded range for
//! exactness.

use vstd::prelude::*;

use crate::parser::{
    copy_range, digit_run, is_digit, is_digit_byte, lemma_digit_run, lemma_digit_run_exact,
    skip_ws, spec_digit_run, spec_skip_ws, ErrorKind, ParseError,
};

verus! {

/// Largest magnitude the normalized power of ten may take.
pub const MAX_EXP: i32 = 100;

/// A decimal number in normalized exact form: `(-1)^neg * mant * 10^exp`.
#[derive(Debug, Clone, Copy, PartialEq, Eq, Structural)]
pub struct Num {
    /// True for a negative value; never set when `mant` is zero.
    pub neg: bool,
    /// Mantissa; does not end in a zero digit unless the value is zero.
    pub mant: u64,
    /// Power of ten scaling the mantissa.
    pub exp: i32,
}

impl Num {
    /// Normalization invariant: zero is canonical and the mantissa carries no
    /// trailing zero digit, so structural equality is value equality.
    pub open spec fn wf(self) -> bool {
        &&& self.mant == 0 ==> (!self.neg && self.exp == 0)
        &&& self.mant != 0 ==> self.mant % 10 != 0
        &&& -(MAX_EXP as int) <= self.exp as int <= MAX_EXP as int
    }
}

/// `10^k`.
pub open spec fn pow10(k: nat) -> int
    decreases k,
{
    if k == 0 {
        1
    } else {
        10 * pow10((k - 1) as nat)
    }
}

/// Computes `10^k` in 64 bits.
pub fn pow10_u64(k: usize) -> (r: u64)
    requires
        k <= 19,
    ensures
        r as int == pow10(k as nat),
{
    let mut r: u64 = 1;
    let mut t: usize = 0;
    while t < k
        invariant
            t <= k <= 19,
            r as int == pow10(t as nat),
        decreases k - t,
    {
        proof {
            assert(pow10((t + 1) as nat) == 10 * pow10(t as nat));
            lemma_pow10_mono(t as nat, 18);
            assert(pow10(18) < u64::MAX as int) by {
                reveal_with_fuel(pow10, 19);
            };
            assert(10 * pow10(18) <= u64::MAX as int) by {
                reveal_with_fuel(pow10, 19);
            };
        }
        r = r * 10;
        t += 1;
    }
    r
}

/// Every byte of `s` is an ASCII digit.
pub open spec fn all_digits(s: Seq<u8>) -> bool {
    forall|k: int| 0 <= k < s.len() ==> is_digit(#[trigger] s[k])
}

/// The integer a digit string denotes, most significant digit first.
pub open spec fn digits_val(s: Seq<u8>) -> int
    decreases s.len(),
{
    if s.len() == 0 {
        0
    } else {
        digits_val(s.drop_last()) * 10 + (s.last() - 48)
    }
}

/// The canonical digit string of `m`: no leading zeros except for `m == 0`.
pub open spec fn spec_digits_of(m: nat) -> Seq<u8>
    decreases m,
{
    if m < 10 {
        seq![(48 + m) as u8]
    } else {
        spec_digits_of(m / 10).push((48 + m % 10) as u8)
    }
}

/// `s` with every trailing zero digit removed.
pub open spec fn strip_zeros(s: Seq<u8>) -> Seq<u8>
    decreases s.len(),
{
    if s.len() > 0 && s.last() == 48 {
        strip_zeros(s.drop_last())
    } else {
        s
    }
}

/// `k` zero digits.
pub open spec fn zero_seq(k: nat) -> Seq<u8> {
    Seq::new(k, |i: int| 48u8)
}

pub proof fn lemma_pow10_pos(k: nat)
    ensures
        pow10(k) >= 1,
    decreases k,
{
    if k > 0 {
        lemma_pow10_pos((k - 1) as nat);
    }
}

pub proof fn lemma_pow10_add(a: nat, b: nat)
    ensures
        pow10(a + b) == pow10(a) * pow10(b),
    decreases a,
{
    if a == 0 {
    } else {
        lemma_pow10_add((a - 1) as nat, b);
        assert(pow10(a + b) == 10 * pow10((a + b - 1) as nat));
        assert(10 * (pow10((a - 1) as nat) * pow10(b)) == (10 * pow10((a - 1) as nat)) * pow10(b))
            by (nonlinear_arith);
    }
}

pub proof fn lemma_pow10_mono(a: nat, b: nat)
    requires
        a <= b,
    ensures
        pow10(a) <= pow10(b),
    decreases b,
{
    if a < b {
        lemma_pow10_mono(a, (b - 1) as nat);
        lemma_pow10_pos((b - 1) as nat);
    }
}

/// Splitting a digit string splits its value positionally.
pub proof fn lemma_digits_val_split(s: Seq<u8>, j: int)
    requires
        0 <= j <= s.len(),
    ensures
        digits_val(s) == digits_val(s.take(j)) * pow10((s.len() - j) as nat) + digits_val(
            s.skip(j),
        ),
    decreases s.len() - j,
{
    if j == s.len() {
        assert(s.take(j) =~= s);
        assert(s.skip(j) =~= Seq::<u8>::empty());
    } else {
        lemma_digits_val_split(s.drop_last(), j);
        assert(s.drop_last().take(j) =~= s.take(j));
        assert(s.drop_last().skip(j) =~= s.skip(j).drop_last());
        assert(s.skip(j).last() == s.last());
        assert(s.skip(j).len() == s.len() - j);
        let a = digits_val(s.take(j));
        let b = digits_val(s.skip(j).drop_last());
        let p = pow10((s.len() - 1 - j) as nat);
        assert(digits_val(s) == (a * p + b) * 10 + (s.last() - 48));
        assert(pow10((s.len() - j) as nat) == 10 * p);
        assert((a * p + b) * 10 == a * (10 * p) + b * 10) by (nonlinear_arith);
    }
}

/// A string of zero digits denotes zero.
pub proof fn lemma_zero_seq_val(k: nat)
    ensures
        digits_val(zero_seq(k)) == 0,
        zero_seq(k).len() == k,
        all_digits(zero_seq(k)),
    decreases k,
{
    if k > 0 {
        lemma_zero_seq_val((k - 1) as nat);
        assert(zero_seq(k).drop_last() =~= zero_seq((k - 1) as nat));
        assert(zero_seq(k).last() == 48);
    }
}

/// Digit strings denote nonnegative values bounded by their length.
pub proof fn lemma_digits_val_bounds(s: Seq<u8>)
    requires
        all_digits(s),
    ensures
        0 <= digits_val(s) < pow10(s.len()),
    decreases s.len(),
{
    if s.len() == 0 {
    } else {
        assert(all_digits(s.drop_last())) by {
            assert(forall|k: int|
                0 <= k < s.len() - 1 ==> is_digit(#[trigger] s.drop_last()[k]) == is_digit(s[k]));
        };
        lemma_digits_val_bounds(s.drop_last());
        assert(is_digit(s.last())) by {
            assert(s.last() == s[s.len() - 1]);
        };
        assert(pow10(s.len()) == 10 * pow10((s.len() - 1) as nat));
    }
}

/// The last digit is the value modulo ten.
pub proof fn lemma_digits_val_mod(s: Seq<u8>)
    requires
        all_digits(s),
        s.len() > 0,
    ensures
        digits_val(s) % 10 == s.last() - 48,
{
    assert(all_digits(s.drop_last())) by {
        assert(forall|k: int|
            0 <= k < s.len() - 1 ==> is_digit(#[trigger] s.drop_last()[k]) == is_digit(s[k]));
    };
    lemma_digits_val_bounds(s.drop_last());
    assert(is_digit(s.last())) by {
        assert(s.last() == s[s.len() - 1]);
    };
    let a = digits_val(s.drop_last());
    let d = s.last() - 48;
    assert(a >= 0 && 0 <= d < 10 ==> (a * 10 + d) % 10 == d) by (nonlinear_arith);
}

/// Stripping trailing zeros preserves the digits-times-power value.
pub proof fn lemma_strip_zeros_props(s: Seq<u8>)
    requires
        all_digits(s),
    ensures
        ({
            let t = strip_zeros(s);
            &&& t.len() <= s.len()
            &&& all_digits(t)
            &&& digits_val(t) * pow10((s.len() - t.len()) as nat) == digits_val(s)
            &&& t.len() > 0 ==> t.last() != 48
            &&& t.len() == 0 ==> digits_val(s) == 0
            &&& t =~= s.take(t.len() as int)
        }),
    decreases s.len(),
{
    if s.len() > 0 && s.last() == 48 {
        assert(all_digits(s.drop_last())) by {
            assert(forall|k: int|
                0 <= k < s.len() - 1 ==> is_digit(#[trigger] s.drop_last()[k]) == is_digit(s[k]));
        };
        lemma_strip_zeros_props(s.drop_last());
        let t = strip_zeros(s);
        assert(t == strip_zeros(s.drop_last()));
        assert(digits_val(s) == digits_val(s.drop_last()) * 10);
        let p = pow10((s.len() - 1 - t.len()) as nat);
        assert(pow10((s.len() - t.len()) as nat) == 10 * p) by {
            lemma_pow10_add(1, (s.len() - 1 - t.len()) as nat);
        };
        assert(digits_val(t) * (10 * p) == (digits_val(t) * p) * 10) by (nonlinear_arith);
        assert(s.drop_last().take(t.len() as int) =~= s.take(t.len() as int));
    } else {
        assert(strip_zeros(s) =~= s.take(s.len() as int));
    }
}

/// The canonical digit string really denotes its number.
pub proof fn lemma_digits_of_val(m: nat)
    ensures
        ({
            let d = spec_digits_of(m);
            &&& d.len() >= 1
            &&& all_digits(d)
            &&& digits_val(d) == m
            &&& d.last() == 48 + m % 10
            &&& m < pow10(d.len())
            &&& d.len() > 1 ==> d[0] != 48
            &&& pow10((d.len() - 1) as nat) <= m || d.len() == 1
        }),
    decreases m,
{
    let d = spec_digits_of(m);
    if m < 10 {
        assert(d =~= seq![(48 + m) as u8]);
        assert(digits_val(d) == digits_val(d.drop_last()) * 10 + (d.last() - 48));
        assert(d.drop_last() =~= Seq::<u8>::empty());
        assert(pow10(1) == 10) by {
            reveal_with_fuel(pow10, 2);
        };
    } else {
        lemma_digits_of_val(m / 10);
        let q = spec_digits_of(m / 10);
        assert(d == q.push((48 + m % 10) as u8));
        assert(d.drop_last() =~= q);
        assert(d.last() == (48 + m % 10) as u8);
        assert(digits_val(d) == digits_val(q) * 10 + m % 10);
        assert(m / 10 * 10 + m % 10 == m);
        assert(all_digits(d)) by {
            assert(forall|k: int| 0 <= k < q.len() ==> d[k] == q[k]);
        };
        assert(pow10(d.len()) == 10 * pow10(q.len()));
        assert(m / 10 < pow10(q.len()) ==> m < 10 * pow10(q.len()));
        assert(d[0] == q[0]);
        if q.len() == 1 {
            assert(q[0] == 48 + (m / 10) % 10);
            assert(m / 10 >= 1);
            assert((m / 10) % 10 != 0 || m / 10 >= 10);
        } else {
            assert(pow10((q.len() - 1) as nat) <= m / 10);
            assert(pow10(q.len()) <= m) by {
                assert(pow10(q.len()) == 10 * pow10((q.len() - 1) as nat));
            };
        }
    }
}

/// The exponent suffix at `i`: its signed value and the position after it.
/// An `e` that is not followed by a digit run is left unconsumed.
pub open spec fn spec_lex_exponent(s: Seq<u8>, i: int) -> (int, int) {
    if i < s.len() && (s[i] == 101 || s[i] == 69) {
        let j = if i + 1 < s.len() && (s[i + 1] == 45 || s[i + 1] == 43) {
            i + 2
        } else {
            i + 1
        };
        let k = spec_digit_run(s, j);
        if k > j {
            let v = digits_val(s.subrange(j, k));
            ((if s[i + 1] == 45 { -v } else { v }), k)
        } else {
            (0, i)
        }
    } else {
        (0, i)
    }
}

/// Normalizes a raw digit string and scale into the exact model, or reports
/// that the literal does not fit it.
pub open spec fn spec_normal_num(neg: bool, digits: Seq<u8>, exp0: int) -> Option<Num> {
    let t = strip_zeros(digits);
    if t.len() == 0 {
        Some(Num { neg: false, mant: 0, exp: 0 })
    } else {
        let m = digits_val(t);
        let e = exp0 + (digits.len() - t.len());
        if m <= u64::MAX as int && -(MAX_EXP as int) <= e <= MAX_EXP as int {
            Some(Num { neg, mant: m as u64, exp: e as i32 })
        } else {
            None
        }
    }
}

/// The digit regions of the numeric token at `i`: the sign, the digit string
/// (integer and fraction digits concatenated), the fraction length and the
/// position after the digits.  `None` when no token starts at `i`.
pub open spec fn spec_num_parts(s: Seq<u8>, i: int) -> Option<(bool, Seq<u8>, int, int)> {
    let neg = i < s.len() && s[i] == 45;
    let i1 = if i < s.len() && (s[i] == 45 || s[i] == 43) {
        i + 1
    } else {
        i
    };
    let d1 = spec_digit_run(s, i1);
    if d1 > i1 {
        let fs = if d1 < s.len() && s[d1] == 46 {
            d1 + 1
        } else {
            d1
        };
        let fe = if d1 < s.len() && s[d1] == 46 {
            spec_digit_run(s, d1 + 1)
        } else {
            d1
        };
        Some((neg, s.subrange(i1, d1) + s.subrange(fs, fe), fe - fs, fe))
    } else if i1 < s.len() && s[i1] == 46 && spec_digit_run(s, i1 + 1) > i1 + 1 {
        let fe = spec_digit_run(s, i1 + 1);
        Some((neg, s.subrange(i1 + 1, fe), fe - (i1 + 1), fe))
    } else {
        None
    }
}

/// Whether a numeric token starts at `i`: an optional sign, then either a
/// digit run (with optional fraction) or a point followed by a digit run.
pub open spec fn spec_num_syntax(s: Seq<u8>, i: int) -> bool {
    spec_num_parts(s, i) is Some
}

/// The numeric token at `i`: sign, integer digits, optional `.` fraction,
/// optional exponent, assembled into the normalized exact form.  `None` when
/// no token starts at `i` or the literal does not fit the model.
pub open spec fn spec_lex_number(s: Seq<u8>, i: int) -> Option<(Num, int)> {
    match spec_num_parts(s, i) {
        Some((neg, digits, fraclen, p)) => {
            let (e0, end) = spec_lex_exponent(s, p);
            match spec_normal_num(neg, digits, e0 - fraclen) {
                Some(n) => Some((n, end)),
                None => None,
            }
        },
        None => None,
    }
}

/// The token's pieces lie in bounds, its digits are digits, and it is
/// nonempty.
pub proof fn lemma_num_parts_ok(s: Seq<u8>, i: int)
    requires
        0 <= i <= s.len(),
    ensures
        spec_num_parts(s, i) matches Some((neg, digits, fraclen, p)) ==> all_digits(digits) && i
            < p <= s.len() && 0 <= fraclen <= digits.len() && digits.len() <= s.len(),
{
    let i1 = if i < s.len() && (s[i] == 45 || s[i] == 43) {
        i + 1
    } else {
        i
    };
    lemma_digit_run(s, i1);
    let d1 = spec_digit_run(s, i1);
    if d1 > i1 {
        if d1 < s.len() && s[d1] == 46 {
            lemma_digit_run(s, d1 + 1);
        }
    } else if i1 < s.len() && s[i1] == 46 {
        lemma_digit_run(s, i1 + 1);
    }
}

pub proof fn lemma_lex_exponent_ok(s: Seq<u8>, i: int)
    requires
        0 <= i <= s.len(),
    ensures
        i <= spec_lex_exponent(s, i).1 <= s.len(),
{
    if i < s.len() && (s[i] == 101 || s[i] == 69) {
        let j = if i + 1 < s.len() && (s[i + 1] == 45 || s[i + 1] == 43) {
            i + 2
        } else {
            i + 1
        };
        lemma_digit_run(s, j);
    }
}

pub proof fn lemma_normal_num_ok(neg: bool, digits: Seq<u8>, exp0: int)
    requires
        all_digits(digits),
    ensures
        spec_normal_num(neg, digits, exp0) matches Some(n) ==> n.wf(),
{
    lemma_strip_zeros_props(digits);
    let t = strip_zeros(digits);
    if t.len() > 0 {
        lemma_digits_val_mod(t);
        lemma_digits_val_bounds(t);
    }
}

/// Appending zero digits does not change the stripped string.
pub proof fn lemma_strip_concat_zeros(a: Seq<u8>, k: nat)
    ensures
        strip_zeros(a + zero_seq(k)) == strip_zeros(a),
    decreases k,
{
    if k == 0 {
        assert(a + zero_seq(0) =~= a);
    } else {
        lemma_strip_concat_zeros(a, (k - 1) as nat);
        let s = a + zero_seq(k);
        assert(s.len() > 0 && s.last() == 48);
        assert(s.drop_last() =~= a + zero_seq((k - 1) as nat));
    }
}

/// The length of the stripped string is one past the last nonzero digit.
proof fn lemma_strip_zeros_len(s: Seq<u8>, l: int)
    requires
        0 <= l <= s.len(),
        l > 0 ==> s[l - 1] != 48,
        forall|k: int| l <= k < s.len() ==> s[k] == 48,
    ensures
        strip_zeros(s) =~= s.take(l),
    decreases s.len(),
{
    if s.len() > 0 && s.last() == 48 {
        lemma_strip_zeros_len(s.drop_last(), l);
        assert(s.drop_last().take(l) =~= s.take(l));
    } else {
        assert(l == s.len());
    }
}

/// Reads the exponent suffix.  The magnitude is clamped at `s.len() + 101`,
/// past which the exact value cannot matter for the kept exponent range.
fn lex_exponent(s: &[u8], i: usize) -> (r: (bool, u128, usize))
    requires
        i <= s@.len(),
    ensures
        ({
            let (ev, end) = spec_lex_exponent(s@, i as int);
            let mag: int = if ev >= 0 {
                ev
            } else {
                -ev
            };
            let bound = s@.len() + 101;
            &&& r.2 == end
            &&& i <= end <= s@.len()
            &&& (if r.0 {
                ev <= 0
            } else {
                ev >= 0
            })
            &&& ((r.1 as int == mag && mag < bound) || (r.1 as int >= bound && mag >= bound))
        }),
{
    proof {
        lemma_lex_exponent_ok(s@, i as int);
    }
    if i < s.len() && (s[i] == 101 || s[i] == 69) {
        let (eneg, j) = if i + 1 < s.len() && (s[i + 1] == 45 || s[i + 1] == 43) {
            (s[i + 1] == 45, i + 2)
        } else {
            (false, i + 1)
        };
        let k = digit_run(s, j);
        proof {
            lemma_digit_run(s@, j as int);
        }
        if k > j {
            let bound: u128 = s.len() as u128 + 101;
            let mut acc: u128 = 0;
            let mut t = j;
            while t < k
                invariant
                    j <= t <= k <= s@.len(),
                    bound == s@.len() + 101,
                    forall|q: int| j <= q < k ==> is_digit(#[trigger] s@[q]),
                    ({
                        let v = digits_val(s@.subrange(j as int, t as int));
                        (acc as int == v && v < bound) || (acc as int >= bound && v >= bound)
                    }),
                decreases k - t,
            {
                let d: u8 = s[t] - 48;
                proof {
                    let pre = s@.subrange(j as int, t as int);
                    let post = s@.subrange(j as int, t + 1 as int);
                    assert(post.drop_last() =~= pre);
                    assert(post.last() == s@[t as int]);
                    assert(all_digits(pre));
                    lemma_digits_val_bounds(pre);
                }
                if acc < bound {
                    acc = acc * 10 + d as u128;
                } else {
                    proof {
                        let pre = s@.subrange(j as int, t as int);
                        let v = digits_val(pre);
                        assert(v * 10 + (d as int) >= v) by (nonlinear_arith)
                            requires
                                v >= 0,
                                d >= 0,
                        ;
                    }
                }
                t += 1;
            }
            proof {
                assert(s@.subrange(j as int, k as int) == s@.subrange(j as int, t as int));
            }
            (eneg, acc, k)
        } else {
            (false, 0, i)
        }
    } else {
        (false, 0, i)
    }
}

/// Accumulates the first `sl` digits of `buf` into a mantissa; `None` when
/// the value exceeds 64 bits.
fn mant_of_digits(buf: &[u8], sl: usize) -> (r: Option<u64>)
    requires
        sl <= buf@.len(),
        all_digits(buf@),
    ensures
        ({
            let v = digits_val(buf@.take(sl as int));
            match r {
                Some(m) => m as int == v,
                None => v > u64::MAX as int,
            }
        }),
{
    let mut mant: u64 = 0;
    let mut k: usize = 0;
    while k < sl
        invariant
            0 <= k <= sl <= buf@.len(),
            all_digits(buf@),
            mant as int == digits_val(buf@.take(k as int)),
        decreases sl - k,
    {
        let d: u8 = buf[k] - 48;
        proof {
            let pre = buf@.take(k as int);
            let post = buf@.take(k + 1 as int);
            assert(post.drop_last() =~= pre);
            assert(post.last() == buf@[k as int]);
        }
        if mant <= (u64::MAX - d as u64) / 10 {
            mant = mant * 10 + d as u64;
        } else {
            proof {
                let post = buf@.take(k + 1 as int);
                let full = buf@.take(sl as int);
                assert(all_digits(post));
                assert(all_digits(full));
                lemma_digits_val_split(full, k + 1);
                assert(full.take(k + 1) =~= post);
                lemma_digits_val_bounds(post);
                lemma_digits_val_bounds(full.skip(k + 1));
                lemma_pow10_pos((sl - k - 1) as nat);
                let a = digits_val(post);
                let p = pow10((sl - k - 1) as nat);
                assert(a * p >= a) by (nonlinear_arith)
                    requires
                        a >= 0,
                        p >= 1,
                ;
            }
            return None;
        }
        k += 1;
    }
    proof {
        assert(buf@.take(sl as int) == buf@.take(k as int));
    }
    Some(mant)
}

/// Reads the numeric token at `i`, exactly as `spec_lex_number` describes.
/// The reported failure distinguishes a missing token from a literal that
/// does not fit the exact model.
#[verifier::rlimit(100)]
#[verifier::spinoff_prover]
pub fn lex_number(s: &[u8], i: usize) -> (r: Result<(Num, usize), ParseError>)
    requires
        i <= s@.len(),
    ensures
        r matches Ok((n, end)) ==> spec_lex_number(s@, i as int) == Some::<(Num, int)>(
            (n, end as int),
        ) && i < end <= s@.len() && n.wf(),
        r is Err <==> spec_lex_number(s@, i as int) is None,
        r matches Err(e) ==> e.pos == i && (e.kind == ErrorKind::Number <==> !spec_num_syntax(
            s@,
            i as int,
        )) && (e.kind == ErrorKind::Number || e.kind == ErrorKind::NumberTooLarge),
{
    let ghost gs = s@;
    let neg = i < s.len() && s[i] == 45;
    let i1 = if i < s.len() && (s[i] == 45 || s[i] == 43) {
        i + 1
    } else {
        i
    };
    let d1 = digit_run(s, i1);
    proof {
        lemma_digit_run(gs, i1 as int);
    }
    // Locate the digit regions: integer part [i1, d1), fraction [fs, fe).
    let (fs, fe) = if d1 > i1 {
        if d1 < s.len() && s[d1] == 46 {
            let fe = digit_run(s, d1 + 1);
            (d1 + 1, fe)
        } else {
            (d1, d1)
        }
    } else if i1 < s.len() && s[i1] == 46 {
        let fe = digit_run(s, i1 + 1);
        if fe > i1 + 1 {
            (i1 + 1, fe)
        } else {
            proof {
                assert(spec_num_parts(gs, i as int) is None);
            }
            return Err(ParseError { kind: ErrorKind::Number, pos: i });
        }
    } else {
        proof {
            assert(spec_num_parts(gs, i as int) is None);
        }
        return Err(ParseError { kind: ErrorKind::Number, pos: i });
    };
    proof {
        lemma_digit_run(gs, fs as int);
    }
    let ghost ints = gs.subrange(i1 as int, if d1 > i1 { d1 as int } else { i1 as int });
    let ghost digits = ints + gs.subrange(fs as int, fe as int);
    proof {
        if d1 > i1 {
            assert(spec_num_parts(gs, i as int) == Some((neg, digits, (fe - fs) as int, fe as int)));
        } else {
            assert(digits =~= gs.subrange(i1 + 1 as int, fe as int));
            assert(spec_num_parts(gs, i as int) == Some((neg, digits, (fe - fs) as int, fe as int)));
        }
        lemma_num_parts_ok(gs, i as int);
    }
    // Copy the digits into one buffer.
    let mut buf: Vec<u8> = copy_range(s, i1, if d1 > i1 { d1 } else { i1 });
    let mut frac = copy_range(s, fs, fe);
    buf.append(&mut frac);
    proof {
        assert(buf@ =~= digits);
    }
    // Strip trailing zero digits.
    let mut sl: usize = buf.len();
    while sl > 0 && buf[sl - 1] == 48
        invariant
            0 <= sl <= buf@.len(),
            forall|q: int| sl <= q < buf@.len() ==> buf@[q] == 48,
        decreases sl,
    {
        sl -= 1;
    }
    proof {
        lemma_strip_zeros_len(digits, sl as int);
        lemma_strip_zeros_props(digits);
        assert(strip_zeros(digits).len() == sl);
    }
    // Exponent suffix and final scale.
    let (eneg, emag, end) = lex_exponent(s, fe);
    let ghost ev = spec_lex_exponent(gs, fe as int).0;
    let ghost especs = spec_normal_num(neg, digits, ev - (fe - fs));
    let fraclen: usize = fe - fs;
    let zeros: usize = buf.len() - sl;
    if sl == 0 {
        proof {
            assert(especs == Some(Num { neg: false, mant: 0, exp: 0 }));
        }
        return Ok((Num { neg: false, mant: 0, exp: 0 }, end));
    }
    let ghost se = ev - fraclen + zeros;
    proof {
        assert(especs matches Some(n) ==> digits_val(strip_zeros(digits)) <= u64::MAX as int
            && -(MAX_EXP as int) <= se <= MAX_EXP as int);
        assert(especs is None ==> digits_val(strip_zeros(digits)) > u64::MAX as int || !(-(
        MAX_EXP as int) <= se <= MAX_EXP as int));
    }
    let bound: u128 = s.len() as u128 + 101;
    if emag >= bound {
        // The scale is beyond any compensation the digits could provide.
        proof {
            assert(fraclen <= digits.len() <= gs.len());
            assert(zeros <= digits.len() <= gs.len());
            assert(!(-(MAX_EXP as int) <= se <= MAX_EXP as int));
        }
        return Err(ParseError { kind: ErrorKind::NumberTooLarge, pos: i });
    }
    let e_exact: i128 = if eneg {
        -(emag as i128)
    } else {
        emag as i128
    };
    let e: i128 = e_exact - fraclen as i128 + zeros as i128;
    proof {
        assert(e == se);
    }
    if e < -(MAX_EXP as i128) || e > MAX_EXP as i128 {
        return Err(ParseError { kind: ErrorKind::NumberTooLarge, pos: i });
    }
    match mant_of_digits(buf.as_slice(), sl) {
        Some(m) => {
            proof {
                assert(digits.take(sl as int) == strip_zeros(digits));
                assert(especs == Some(Num { neg, mant: m, exp: e as i32 }));
            }
            Ok((Num { neg, mant: m, exp: e as i32 }, end))
        },
        None => {
            proof {
                assert(digits.take(sl as int) == strip_zeros(digits));
            }
            Err(ParseError { kind: ErrorKind::NumberTooLarge, pos: i })
        },
    }
}

/// The canonical text of a normalized number: a minus sign when negative,
/// then either the mantissa digits padded with zeros (nonnegative scale) or
/// a decimal fraction (negative scale).  No exponent notation is emitted.
pub open spec fn spec_render_num(n: Num) -> Seq<u8> {
    if n.mant == 0 {
        seq![48u8]
    } else {
        let sign: Seq<u8> = if n.neg {
            seq![45u8]
        } else {
            Seq::empty()
        };
        let ds = spec_digits_of(n.mant as nat);
        if n.exp >= 0 {
            sign + ds + zero_seq(n.exp as nat)
        } else {
            let p = (-(n.exp as int)) as nat;
            if ds.len() > p {
                sign + ds.take(ds.len() - p as int) + seq![46u8] + ds.skip(ds.len() - p as int)
            } else {
                sign + seq![48u8, 46u8] + zero_seq((p - ds.len()) as nat) + ds
            }
        }
    }
}

/// Appends the canonical digit string of `m`.
pub fn push_digits(m: u64, out: &mut Vec<u8>)
    ensures
        final(out)@ == old(out)@ + spec_digits_of(m as nat),
    decreases m,
{
    if m >= 10 {
        push_digits(m / 10, out);
        out.push(48 + (m % 10) as u8);
        proof {
            assert(old(out)@ + spec_digits_of(m as nat) =~= (old(out)@ + spec_digits_of(
                (m / 10) as nat,
            )).push((48 + m % 10) as u8));
        }
    } else {
        out.push(48 + m as u8);
        proof {
            assert(old(out)@ + spec_digits_of(m as nat) =~= old(out)@.push((48 + m as nat) as u8));
        }
    }
}

/// Appends `k` zero digits.
fn push_zeros(k: usize, out: &mut Vec<u8>)
    ensures
        final(out)@ == old(out)@ + zero_seq(k as nat),
{
    let mut t: usize = 0;
    while t < k
        invariant
            t <= k,
            out@ =~= old(out)@ + zero_seq(t as nat),
        decreases k - t,
    {
        out.push(48);
        proof {
            assert(old(out)@ + zero_seq((t + 1) as nat) =~= (old(out)@ + zero_seq(t as nat)).push(
                48u8,
            ));
        }
        t += 1;
    }
    proof {
        assert(out@ =~= old(out)@ + zero_seq(k as nat));
    }
}

impl Num {
    /// Renders the canonical text, exactly as `spec_render_num` describes.
    pub fn to_text(&self) -> (r: Vec<u8>)
        requires
            self.wf(),
        ensures
            r@ == spec_render_num(*self),
    {
        let mut out: Vec<u8> = Vec::new();
        if self.mant == 0 {
            out.push(48);
            proof {
                assert(out@ =~= seq![48u8]);
            }
            return out;
        }
        let ghost sign: Seq<u8> = if self.neg {
            seq![45u8]
        } else {
            Seq::empty()
        };
        if self.neg {
            out.push(45);
        }
        proof {
            assert(out@ =~= sign);
        }
        let ghost ds = spec_digits_of(self.mant as nat);
        if self.exp >= 0 {
            push_digits(self.mant, &mut out);
            push_zeros(self.exp as usize, &mut out);
            proof {
                assert(out@ =~= sign + ds + zero_seq(self.exp as nat));
            }
            out
        } else {
            let p: usize = (-(self.exp as i64)) as usize;
            let mut dvec: Vec<u8> = Vec::new();
            push_digits(self.mant, &mut dvec);
            proof {
                assert(dvec@ == ds);
            }
            if dvec.len() > p {
                let cut: usize = dvec.len() - p;
                let mut k: usize = 0;
                while k < cut
                    invariant
                        k <= cut <= dvec@.len(),
                        dvec@ == ds,
                        out@ =~= sign + ds.take(k as int),
                    decreases cut - k,
                {
                    out.push(dvec[k]);
                    proof {
                        assert(sign + ds.take((k + 1) as int) =~= (sign + ds.take(k as int)).push(
                            ds[k as int],
                        ));
                    }
                    k += 1;
                }
                out.push(46);
                let mut k2: usize = cut;
                while k2 < dvec.len()
                    invariant
                        cut <= k2 <= dvec@.len(),
                        dvec@ == ds,
                        cut == dvec@.len() - p,
                        out@ =~= sign + ds.take(cut as int) + seq![46u8] + ds.subrange(
                            cut as int,
                            k2 as int,
                        ),
                    decreases dvec@.len() - k2,
                {
                    out.push(dvec[k2]);
                    proof {
                        assert(sign + ds.take(cut as int) + seq![46u8] + ds.subrange(
                            cut as int,
                            (k2 + 1) as int,
                        ) =~= (sign + ds.take(cut as int) + seq![46u8] + ds.subrange(
                            cut as int,
                            k2 as int,
                        )).push(ds[k2 as int]));
                    }
                    k2 += 1;
                }
                proof {
                    assert(ds.subrange(cut as int, ds.len() as int) =~= ds.skip(cut as int));
                    assert(out@ =~= sign + ds.take(cut as int) + seq![46u8] + ds.skip(cut as int));
                }
                out
            } else {
                out.push(48);
                out.push(46);
                proof {
                    assert(out@ =~= sign + seq![48u8, 46u8]);
                }
                push_zeros(p - dvec.len(), &mut out);
                let ghost mid = out@;
                let mut k: usize = 0;
                while k < dvec.len()
                    invariant
                        k <= dvec@.len(),
                        dvec@ == ds,
                        out@ =~= mid + ds.take(k as int),
                    decreases dvec@.len() - k,
                {
                    out.push(dvec[k]);
                    proof {
                        assert(mid + ds.take((k + 1) as int) =~= (mid + ds.take(k as int)).push(
                            ds[k as int],
                        ));
                    }
                    k += 1;
                }
                proof {
                    assert(ds.take(ds.len() as int) =~= ds);
                    assert(out@ =~= sign + seq![48u8, 46u8] + zero_seq(
                        (p - ds.len()) as nat,
                    ) + ds);
                }
                out
            }
        }
    }
}

/// A whole text holding exactly one number, whitespace-trimmed on both
/// sides; anything else before or after is a failure.
pub open spec fn spec_num_from_text(s: Seq<u8>) -> Option<Num> {
    let j = spec_skip_ws(s, 0);
    match spec_lex_number(s, j) {
        Some((n, e)) => if spec_skip_ws(s, e) == s.len() {
            Some(n)
        } else {
            None
        },
        None => None,
    }
}

impl Num {
    /// Reads a whole attribute text as one number, exactly as
    /// `spec_num_from_text` describes.
    pub fn from_text(s: &[u8]) -> (r: Result<Num, ParseError>)
        ensures
            r matches Ok(n) ==> spec_num_from_text(s@) == Some(n) && n.wf(),
            r is Err <==> spec_num_from_text(s@) is None,
    {
        let j = skip_ws(s, 0);
        match lex_number(s, j) {
            Ok((n, e)) => {
                let e2 = skip_ws(s, e);
                if e2 == s.len() {
                    Ok(n)
                } else {
                    Err(ParseError { kind: ErrorKind::Number, pos: e2 })
                }
            },
            Err(er) => Err(er),
        }
    }

    /// Builds the normalized form of the integer `(-1)^neg * m`.
    pub fn from_integer(neg: bool, m: u64) -> (r: Num)
        ensures
            r.wf(),
            spec_normal_num(neg, spec_digits_of(m as nat), 0) == Some(r),
    {
        proof {
            lemma_digits_of_val(m as nat);
            lemma_normal_num_ok(neg, spec_digits_of(m as nat), 0);
        }
        if m == 0 {
            proof {
                let d = spec_digits_of(0);
                assert(d =~= seq![48u8]);
                assert(d.last() == 48);
                assert(strip_zeros(d) == strip_zeros(d.drop_last()));
                assert(d.drop_last() =~= Seq::<u8>::empty());
                assert(strip_zeros(Seq::<u8>::empty()) =~= Seq::<u8>::empty());
            }
            return Num { neg: false, mant: 0, exp: 0 };
        }
        let ghost d0 = spec_digits_of(m as nat);
        proof {
            assert(d0.len() <= 20) by {
                if d0.len() > 20 {
                    lemma_pow10_mono(20, (d0.len() - 1) as nat);
                    assert(pow10(20) > u64::MAX as int) by {
                        reveal_with_fuel(pow10, 21);
                    };
                }
            };
            lemma_strip_zeros_props(d0);
            let t0 = strip_zeros(d0);
            lemma_digits_val_bounds(t0);
            lemma_pow10_pos((d0.len() - t0.len()) as nat);
            assert(digits_val(t0) <= digits_val(t0) * pow10((d0.len() - t0.len()) as nat))
                by (nonlinear_arith)
                requires
                    digits_val(t0) >= 0,
                    pow10((d0.len() - t0.len()) as nat) >= 1,
            ;
        }
        let mut mant: u64 = m;
        let mut exp: u32 = 0;
        while mant % 10 == 0
            invariant
                1 <= mant,
                d0 == spec_digits_of(m as nat),
                d0.len() <= 20,
                spec_digits_of(mant as nat).len() + exp == d0.len(),
                strip_zeros(spec_digits_of(mant as nat)) == strip_zeros(d0),
                digits_val(strip_zeros(d0)) <= mant,
            decreases mant,
        {
            proof {
                lemma_digits_of_val(mant as nat);
                let dm = spec_digits_of(mant as nat);
                assert(mant >= 10) by {
                    assert(mant % 10 == 0 && mant >= 1);
                };
                assert(dm == spec_digits_of((mant / 10) as nat).push(
                    (48 + mant % 10) as u8,
                ));
                assert(dm.last() == 48);
                assert(dm.drop_last() =~= spec_digits_of((mant / 10) as nat));
                assert(strip_zeros(dm) == strip_zeros(spec_digits_of((mant / 10) as nat)));
                lemma_digits_of_val((mant / 10) as nat);
                lemma_strip_zeros_props(spec_digits_of((mant / 10) as nat));
                let t = strip_zeros(spec_digits_of((mant / 10) as nat));
                let dq = spec_digits_of((mant / 10) as nat);
                lemma_digits_val_bounds(t);
                lemma_pow10_pos((dq.len() - t.len()) as nat);
                assert(digits_val(t) <= digits_val(t) * pow10((dq.len() - t.len()) as nat))
                    by (nonlinear_arith)
                    requires
                        digits_val(t) >= 0,
                        pow10((dq.len() - t.len()) as nat) >= 1,
                ;
            }
            mant = mant / 10;
            exp = exp + 1;
        }
        proof {
            lemma_digits_of_val(mant as nat);
            let dm = spec_digits_of(mant as nat);
            assert(dm.last() != 48);
            assert(strip_zeros(dm) == dm);
            assert(digits_val(strip_zeros(d0)) == mant);
            assert(strip_zeros(d0).len() == dm.len());
            assert(exp <= 19);
        }
        Num { neg, mant, exp: exp as i32 }
    }
}

/// A whole token as an unsigned 32-bit integer: an optional plus sign, then
/// digits denoting a value that fits.
pub open spec fn spec_u32_of(t: Seq<u8>) -> Option<u32> {
    let d0: int = if t.len() > 0 && t[0] == '+' as u8 {
        1
    } else {
        0
    };
    if t.len() > d0 && spec_digit_run(t, d0) == t.len() && digits_val(t.skip(d0))
        <= u32::MAX as int {
        Some(digits_val(t.skip(d0)) as u32)
    } else {
        None
    }
}

/// Reads a whole token as a `u32`, exactly as `spec_u32_of` describes.
pub fn u32_of_token(t: &[u8]) -> (r: Option<u32>)
    ensures
        match r {
            Some(v) => spec_u32_of(t@) == Some(v),
            None => spec_u32_of(t@) is None,
        },
{
    let d0: usize = if t.len() > 0 && t[0] == '+' as u8 {
        1
    } else {
        0
    };
    if t.len() <= d0 {
        return None;
    }
    proof {
        lemma_digit_run(t@, d0 as int);
    }
    let mut k: usize = d0;
    let mut acc: u32 = 0;
    while k < t.len()
        invariant
            d0 <= k <= t@.len(),
            d0 as int == (if t@.len() > 0 && t@[0] == '+' as u8 {
                1int
            } else {
                0int
            }),
            forall|q: int| d0 <= q < k ==> is_digit(#[trigger] t@[q]),
            acc as int == digits_val(t@.subrange(d0 as int, k as int)),
        decreases t@.len() - k,
    {
        if !is_digit_byte(t[k]) {
            proof {
                lemma_digit_run_exact(t@, d0 as int, k as int);
                assert(spec_digit_run(t@, d0 as int) == k && k < t@.len());
                assert(spec_u32_of(t@) is None);
            }
            return None;
        }
        let d: u8 = t[k] - 48;
        proof {
            let pre = t@.subrange(d0 as int, k as int);
            let post = t@.subrange(d0 as int, (k + 1) as int);
            assert(post.drop_last() =~= pre);
            assert(post.last() == t@[k as int]);
        }
        if acc <= (u32::MAX - d as u32) / 10 {
            acc = acc * 10 + d as u32;
        } else {
            proof {
                if spec_digit_run(t@, d0 as int) == t@.len() {
                    let post = t@.subrange(d0 as int, (k + 1) as int);
                    let full = t@.skip(d0 as int);
                    lemma_digit_run(t@, d0 as int);
                    assert(all_digits(full));
                    assert(all_digits(post));
                    lemma_digits_val_split(full, k + 1 - d0);
                    assert(full.take(k + 1 - d0) =~= post);
                    lemma_digits_val_bounds(post);
                    lemma_digits_val_bounds(full.skip(k + 1 - d0));
                    lemma_pow10_pos((t@.len() - k - 1) as nat);
                    let a = digits_val(post);
                    let p = pow10((t@.len() - k - 1) as nat);
                    assert(a * p >= a) by (nonlinear_arith)
                        requires
                            a >= 0,
                            p >= 1,
                    ;
                    assert(digits_val(full) > u32::MAX as int);
                }
                assert(spec_u32_of(t@) is None);
            }
            return None;
        }
        k += 1;
    }
    proof {
        lemma_digit_run_exact(t@, d0 as int, t@.len() as int);
        assert(t@.subrange(d0 as int, k as int) =~= t@.skip(d0 as int));
    }
    Some(acc)
}

/// A byte that cannot extend a numeric token: anything but a digit, the
/// decimal point and the exponent letters.
pub open spec fn num_boundary(b: u8) -> bool {
    !(is_digit(b) || b == 46 || b == 101 || b == 69)
}

/// The canonical text is nonempty, opens with a sign or digit, and holds
/// only signs, points and digits.
pub proof fn lemma_render_num_chars(n: Num)
    requires
        n.wf(),
    ensures
        spec_render_num(n).len() >= 1,
        ({
            let r = spec_render_num(n);
            &&& (r[0] == 45 || is_digit(r[0]))
            &&& forall|k: int| 0 <= k < r.len() ==> r[k] == 45 || r[k] == 46 || is_digit(#[trigger] r[k])
        }),
{
    let r = spec_render_num(n);
    if n.mant == 0 {
        assert(r == seq![48u8]);
        assert(r[0] == 48);
    } else {
        lemma_digits_of_val(n.mant as nat);
        let sign: Seq<u8> = if n.neg {
            seq![45u8]
        } else {
            Seq::empty()
        };
        let ds = spec_digits_of(n.mant as nat);
        if n.exp >= 0 {
            lemma_zero_seq_val(n.exp as nat);
            assert(r == sign + ds + zero_seq(n.exp as nat));
            assert(forall|k: int|
                0 <= k < r.len() ==> r[k] == 45 || r[k] == 46 || is_digit(#[trigger] r[k])) by {
                assert(forall|k: int|
                    sign.len() <= k < sign.len() + ds.len() ==> #[trigger] r[k] == ds[k
                        - sign.len()]);
                assert(forall|k: int|
                    sign.len() + ds.len() <= k < r.len() ==> #[trigger] r[k] == 48);
            };
        } else {
            let p = (-(n.exp as int)) as nat;
            if ds.len() > p {
                let a = ds.take(ds.len() - p as int);
                let b = ds.skip(ds.len() - p as int);
                assert(r == sign + a + seq![46u8] + b);
                assert(forall|k: int| 0 <= k < a.len() ==> is_digit(#[trigger] a[k]));
                assert(forall|k: int| 0 <= k < b.len() ==> is_digit(#[trigger] b[k]));
                assert(r[0] == 45 || is_digit(r[0]));
            } else {
                lemma_zero_seq_val((p - ds.len()) as nat);
                assert(r == sign + seq![48u8, 46u8] + zero_seq((p - ds.len()) as nat) + ds);
            }
        }
    }
}

/// Round trip for a zero mantissa.
proof fn lemma_rt_zero(n: Num, rest: Seq<u8>)
    requires
        n.wf(),
        n.mant == 0,
        rest.len() > 0 ==> num_boundary(rest[0]),
    ensures
        spec_lex_number(spec_render_num(n) + rest, 0) == Some((n, spec_render_num(n).len() as int)),
{
    let ren = spec_render_num(n);
    let s = ren + rest;
    assert(ren == seq![48u8]);
    assert(s[0] == 48);
    assert(1 < s.len() ==> s[1] == rest[0]);
    lemma_digit_run_exact(s, 0, 1);
    let digits = s.subrange(0, 1) + s.subrange(1, 1);
    assert(digits =~= seq![48u8]);
    assert(spec_num_parts(s, 0) == Some((false, digits, 0int, 1int)));
    assert(spec_lex_exponent(s, 1) == (0int, 1int));
    assert(strip_zeros(digits).len() == 0) by {
        assert(digits.last() == 48);
        assert(strip_zeros(digits) == strip_zeros(digits.drop_last()));
        assert(digits.drop_last() =~= Seq::<u8>::empty());
        assert(strip_zeros(Seq::<u8>::empty()) =~= Seq::<u8>::empty());
    };
    assert(spec_normal_num(false, digits, 0) == Some(Num { neg: false, mant: 0, exp: 0 }));
    assert(n == Num { neg: false, mant: 0, exp: 0 });
}

/// Round trip for a nonnegative scale: digits followed by padding zeros.
proof fn lemma_rt_nonneg(n: Num, rest: Seq<u8>)
    requires
        n.wf(),
        n.mant != 0,
        n.exp >= 0,
        rest.len() > 0 ==> num_boundary(rest[0]),
    ensures
        spec_lex_number(spec_render_num(n) + rest, 0) == Some((n, spec_render_num(n).len() as int)),
{
    let ren = spec_render_num(n);
    let s = ren + rest;
    let sign: Seq<u8> = if n.neg {
        seq![45u8]
    } else {
        Seq::empty()
    };
    let ds = spec_digits_of(n.mant as nat);
    let z = zero_seq(n.exp as nat);
    lemma_digits_of_val(n.mant as nat);
    lemma_zero_seq_val(n.exp as nat);
    assert(ren == sign + ds + z);
    let i1 = sign.len() as int;
    let r = ren.len() as int;
    assert(forall|k: int| i1 <= k < r ==> is_digit(#[trigger] s[k])) by {
        assert(forall|k: int| i1 <= k < i1 + ds.len() ==> #[trigger] s[k] == ds[k - i1]);
        assert(forall|k: int| i1 + ds.len() <= k < r ==> #[trigger] s[k] == 48);
    };
    assert(r < s.len() ==> s[r] == rest[0]);
    if n.neg {
        assert(s[0] == 45);
    } else {
        assert(s[0] == ds[0]);
    }
    lemma_digit_run_exact(s, i1, r);
    let digits = s.subrange(i1, r) + s.subrange(r, r);
    assert(digits =~= ds + z);
    assert(spec_num_parts(s, 0) == Some((n.neg, digits, 0int, r)));
    assert(spec_lex_exponent(s, r) == (0int, r));
    lemma_strip_concat_zeros(ds, n.exp as nat);
    assert(strip_zeros(ds) == ds);
    assert(digits_val(ds) == n.mant);
    assert(digits.len() - ds.len() == n.exp);
    assert(spec_normal_num(n.neg, digits, 0) == Some(n));
}

/// Round trip for a negative scale with more digits than fraction places.
proof fn lemma_rt_frac_big(n: Num, rest: Seq<u8>)
    requires
        n.wf(),
        n.mant != 0,
        n.exp < 0,
        spec_digits_of(n.mant as nat).len() > -(n.exp as int),
        rest.len() > 0 ==> num_boundary(rest[0]),
    ensures
        spec_lex_number(spec_render_num(n) + rest, 0) == Some((n, spec_render_num(n).len() as int)),
{
    let ren = spec_render_num(n);
    let s = ren + rest;
    let sign: Seq<u8> = if n.neg {
        seq![45u8]
    } else {
        Seq::empty()
    };
    let ds = spec_digits_of(n.mant as nat);
    let p = -(n.exp as int);
    let a = ds.take(ds.len() - p);
    let b = ds.skip(ds.len() - p);
    lemma_digits_of_val(n.mant as nat);
    assert(ren == sign + a + seq![46u8] + b);
    let i1 = sign.len() as int;
    let d1 = i1 + a.len() as int;
    let r = ren.len() as int;
    assert(r == d1 + 1 + p);
    assert(forall|k: int| i1 <= k < d1 ==> is_digit(#[trigger] s[k])) by {
        assert(forall|k: int| i1 <= k < d1 ==> #[trigger] s[k] == a[k - i1]);
        assert(forall|k: int| 0 <= k < a.len() ==> is_digit(#[trigger] a[k]));
    };
    assert(s[d1] == 46);
    assert(forall|k: int| d1 + 1 <= k < r ==> is_digit(#[trigger] s[k])) by {
        assert(forall|k: int| d1 + 1 <= k < r ==> #[trigger] s[k] == b[k - d1 - 1]);
        assert(forall|k: int| 0 <= k < b.len() ==> is_digit(#[trigger] b[k]));
    };
    assert(r < s.len() ==> s[r] == rest[0]);
    if n.neg {
        assert(s[0] == 45);
    } else {
        assert(s[0] == a[0]);
    }
    lemma_digit_run_exact(s, i1, d1);
    lemma_digit_run_exact(s, d1 + 1, r);
    let digits = s.subrange(i1, d1) + s.subrange(d1 + 1, r);
    assert(digits =~= a + b);
    assert(a + b =~= ds);
    assert(spec_num_parts(s, 0) == Some((n.neg, digits, p, r)));
    assert(spec_lex_exponent(s, r) == (0int, r));
    assert(strip_zeros(ds) == ds);
    assert(digits_val(ds) == n.mant);
    assert(spec_normal_num(n.neg, digits, 0 - p) == Some(n));
}

/// Round trip for a negative scale needing a leading `0.` and zero padding.
#[verifier::rlimit(100)]
#[verifier::spinoff_prover]
proof fn lemma_rt_frac_small(n: Num, rest: Seq<u8>)
    requires
        n.wf(),
        n.mant != 0,
        n.exp < 0,
        spec_digits_of(n.mant as nat).len() <= -(n.exp as int),
        rest.len() > 0 ==> num_boundary(rest[0]),
    ensures
        spec_lex_number(spec_render_num(n) + rest, 0) == Some((n, spec_render_num(n).len() as int)),
{
    let ren = spec_render_num(n);
    let s = ren + rest;
    let sign: Seq<u8> = if n.neg {
        seq![45u8]
    } else {
        Seq::empty()
    };
    let ds = spec_digits_of(n.mant as nat);
    let p = -(n.exp as int);
    let z = zero_seq((p - ds.len()) as nat);
    lemma_digits_of_val(n.mant as nat);
    lemma_zero_seq_val((p - ds.len()) as nat);
    assert(ren == sign + seq![48u8, 46u8] + z + ds);
    let i1 = sign.len() as int;
    let d1 = i1 + 1;
    let fs = d1 + 1;
    let r = ren.len() as int;
    assert(r == fs + p);
    assert(s[i1] == 48);
    assert(s[d1] == 46);
    assert(forall|k: int| fs <= k < r ==> is_digit(#[trigger] s[k])) by {
        assert(forall|k: int| fs <= k < fs + z.len() ==> #[trigger] s[k] == 48);
        assert(forall|k: int| fs + z.len() <= k < r ==> #[trigger] s[k] == ds[k - fs - z.len()]);
    };
    assert(r < s.len() ==> s[r] == rest[0]);
    if n.neg {
        assert(s[0] == 45);
    }
    lemma_digit_run_exact(s, i1, d1);
    lemma_digit_run_exact(s, fs, r);
    let digits = s.subrange(i1, d1) + s.subrange(fs, r);
    let zq = zero_seq((p - ds.len() + 1) as nat);
    assert(digits =~= zq + ds) by {
        lemma_zero_seq_val((p - ds.len() + 1) as nat);
    };
    assert(spec_num_parts(s, 0) == Some((n.neg, digits, p, r)));
    assert(spec_lex_exponent(s, r) == (0int, r));
    assert(digits.last() == ds.last());
    assert(strip_zeros(digits) == digits);
    lemma_zero_seq_val((p - ds.len() + 1) as nat);
    lemma_digits_val_split(digits, zq.len() as int);
    assert(digits.take(zq.len() as int) =~= zq);
    assert(digits.skip(zq.len() as int) =~= ds);
    assert(digits_val(digits) == n.mant) by {
        assert(digits_val(zq) == 0);
        lemma_pow10_pos(ds.len());
    };
    assert(spec_normal_num(n.neg, digits, 0 - p) == Some(n));
}

/// Digit runs depend only on the text from their start position on.
pub proof fn lemma_digit_run_local(s: Seq<u8>, i: int, j: int)
    requires
        0 <= i <= j <= s.len(),
    ensures
        spec_digit_run(s, j) == i + spec_digit_run(s.skip(i), j - i),
    decreases s.len() - j,
{
    if j < s.len() && is_digit(s[j]) {
        lemma_digit_run_local(s, i, j + 1);
    }
}

/// Exponent suffixes depend only on the text from their start position on.
pub proof fn lemma_lex_exponent_local(s: Seq<u8>, i: int, p: int)
    requires
        0 <= i <= p <= s.len(),
    ensures
        spec_lex_exponent(s, p).0 == spec_lex_exponent(s.skip(i), p - i).0,
        spec_lex_exponent(s, p).1 == spec_lex_exponent(s.skip(i), p - i).1 + i,
{
    let t = s.skip(i);
    if p < s.len() && (s[p] == 101 || s[p] == 69) {
        let j = if p + 1 < s.len() && (s[p + 1] == 45 || s[p + 1] == 43) {
            p + 2
        } else {
            p + 1
        };
        lemma_digit_run_local(s, i, j);
        lemma_digit_run(s, j);
        let k = spec_digit_run(s, j);
        if k > j {
            assert(s.subrange(j, k) =~= t.subrange(j - i, k - i));
        }
    }
}

/// Numeric tokens depend only on the text from their start position on.
#[verifier::rlimit(100)]
#[verifier::spinoff_prover]
pub proof fn lemma_lex_number_local(s: Seq<u8>, i: int)
    requires
        0 <= i <= s.len(),
    ensures
        ({
            let t = s.skip(i);
            match spec_lex_number(t, 0) {
                Some((n, e)) => spec_lex_number(s, i) == Some((n, e + i)),
                None => spec_lex_number(s, i) is None,
            }
        }),
{
    let t = s.skip(i);
    let i1 = if i < s.len() && (s[i] == 45 || s[i] == 43) {
        i + 1
    } else {
        i
    };
    lemma_digit_run_local(s, i, i1);
    lemma_digit_run(s, i1);
    let d1 = spec_digit_run(s, i1);
    if d1 > i1 {
        if d1 < s.len() && s[d1] == 46 {
            lemma_digit_run(s, d1 + 1);
        }
        let fs = if d1 < s.len() && s[d1] == 46 {
            d1 + 1
        } else {
            d1
        };
        let fe = if d1 < s.len() && s[d1] == 46 {
            spec_digit_run(s, d1 + 1)
        } else {
            d1
        };
        if d1 < s.len() && s[d1] == 46 {
            lemma_digit_run_local(s, i, d1 + 1);
        }
        assert(s.subrange(i1, d1) =~= t.subrange(i1 - i, d1 - i));
        assert(s.subrange(fs, fe) =~= t.subrange(fs - i, fe - i));
        assert(spec_num_parts(t, 0) == Some(
            (
                i < s.len() && s[i] == 45,
                s.subrange(i1, d1) + s.subrange(fs, fe),
                fe - fs,
                fe - i,
            ),
        ));
        lemma_lex_exponent_local(s, i, fe);
    } else if i1 < s.len() && s[i1] == 46 && spec_digit_run(s, i1 + 1) > i1 + 1 {
        lemma_digit_run_local(s, i, i1 + 1);
        lemma_digit_run(s, i1 + 1);
        let fe = spec_digit_run(s, i1 + 1);
        assert(s.subrange(i1 + 1, fe) =~= t.subrange(i1 + 1 - i, fe - i));
        assert(spec_num_parts(t, 0) == Some(
            (i < s.len() && s[i] == 45, s.subrange(i1 + 1, fe), fe - (i1 + 1), fe - i),
        ));
        lemma_lex_exponent_local(s, i, fe);
    } else {
        if i1 < s.len() && s[i1] == 46 {
            lemma_digit_run_local(s, i, i1 + 1);
        }
        assert(spec_num_parts(t, 0) is None);
    }
}

/// Serialize-then-parse identity at an offset: where the canonical text of a
/// normalized number sits at `i`, followed by nothing that could extend the
/// token, the lexer reads back exactly that number.
pub proof fn lemma_render_num_at(s: Seq<u8>, i: int, n: Num)
    requires
        n.wf(),
        0 <= i,
        i + spec_render_num(n).len() <= s.len(),
        s.subrange(i, i + spec_render_num(n).len() as int) == spec_render_num(n),
        i + spec_render_num(n).len() < s.len() ==> num_boundary(
            s[i + spec_render_num(n).len()],
        ),
    ensures
        spec_lex_number(s, i) == Some((n, i + spec_render_num(n).len() as int)),
{
    let r = spec_render_num(n).len() as int;
    let rest = s.skip(i + r);
    assert(s.skip(i) =~= spec_render_num(n) + rest);
    assert(rest.len() > 0 ==> rest[0] == s[i + r]);
    lemma_render_then_lex(n, rest);
    lemma_lex_number_local(s, i);
}

/// Serialize-then-parse identity for a number on its own text: the
/// canonical rendering, read back as a whole attribute text, gives exactly
/// the number it came from.
pub proof fn lemma_num_round_trip(n: Num)
    requires
        n.wf(),
    ensures
        spec_num_from_text(spec_render_num(n)) == Some(n),
{
    let s = spec_render_num(n);
    lemma_render_num_chars(n);
    assert(spec_skip_ws(s, 0) == 0);
    lemma_render_then_lex(n, Seq::empty());
    assert(s + Seq::<u8>::empty() =~= s);
    crate::parser::lemma_skip_ws_bounds(s, s.len() as int);
}

/// Serialize-then-parse identity at the token level: the canonical text of a
/// normalized number, followed by anything that cannot extend the token,
/// lexes back to exactly that number.
pub proof fn lemma_render_then_lex(n: Num, rest: Seq<u8>)
    requires
        n.wf(),
        rest.len() > 0 ==> num_boundary(rest[0]),
    ensures
        spec_lex_number(spec_render_num(n) + rest, 0) == Some((n, spec_render_num(n).len() as int)),
{
    if n.mant == 0 {
        lemma_rt_zero(n, rest);
    } else if n.exp >= 0 {
        lemma_rt_nonneg(n, rest);
    } else if spec_digits_of(n.mant as nat).len() > -(n.exp as int) {
        lemma_rt_frac_big(n, rest);
    } else {
        lemma_rt_frac_small(n, rest);
    }
}

} // verus!
