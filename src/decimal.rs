//! Exact comparison of a decimal number, as written, with integer bounds.
use vstd::prelude::*;

use crate::lex::{
    chars_of, digit_run_end, digits_end, digits_upto, digits_value, is_digit, is_digit_char,
    lemma_digit_run_end,
};

verus! {

/// The length of the sign at the start of a number, 0 or 1.
pub open spec fn sign_len(d: Seq<char>) -> int {
    if d.len() > 0 && (d[0] == '+' || d[0] == '-') {
        1
    } else {
        0
    }
}

pub open spec fn is_negative(d: Seq<char>) -> bool {
    d.len() > 0 && d[0] == '-'
}

/// The end of the digits before the decimal point.
pub open spec fn int_end(d: Seq<char>) -> int {
    digit_run_end(d, sign_len(d))
}

/// The start of the digits after the decimal point.
pub open spec fn frac_start(d: Seq<char>) -> int {
    if int_end(d) < d.len() && d[int_end(d)] == '.' {
        int_end(d) + 1
    } else {
        int_end(d)
    }
}

pub open spec fn frac_end(d: Seq<char>) -> int {
    digit_run_end(d, frac_start(d))
}

/// The number of digits before the decimal point.
pub open spec fn int_digits(d: Seq<char>) -> int {
    int_end(d) - sign_len(d)
}

/// The number of digits of the mantissa, before and after the point.
pub open spec fn mantissa_len(d: Seq<char>) -> int {
    int_digits(d) + (frac_end(d) - frac_start(d))
}

/// The value of the exponent, 0 when there is none.
pub open spec fn exponent_value(d: Seq<char>) -> int {
    let q = frac_end(d);
    if q < d.len() && (d[q] == 'e' || d[q] == 'E') {
        let j = if q + 1 < d.len() && (d[q + 1] == '+' || d[q + 1] == '-') {
            q + 2
        } else {
            q + 1
        };
        let v = digits_value(d, j, digit_run_end(d, j)) as int;
        if q + 1 < d.len() && d[q + 1] == '-' {
            -v
        } else {
            v
        }
    } else {
        0
    }
}

pub open spec fn char_digit(c: char) -> nat {
    ((c as u32) - 48) as nat
}

/// The `j`-th digit of the mantissa, 0 outside it.
pub open spec fn mantissa_digit(d: Seq<char>, j: int) -> nat {
    if 0 <= j < int_digits(d) {
        char_digit(d[sign_len(d) + j])
    } else if int_digits(d) <= j < mantissa_len(d) {
        char_digit(d[frac_start(d) + j - int_digits(d)])
    } else {
        0
    }
}

/// Where the decimal point falls among the mantissa digits once the
/// exponent has moved it.
pub open spec fn point(d: Seq<char>) -> int {
    int_digits(d) + exponent_value(d)
}

/// The value of the first `t` mantissa digits, zeros past its end.
pub open spec fn leading_value(d: Seq<char>, t: int) -> nat
    decreases t,
{
    if t <= 0 {
        0
    } else {
        10 * leading_value(d, t - 1) + mantissa_digit(d, t - 1)
    }
}

/// The integer part of the magnitude of the number.
pub open spec fn int_part(d: Seq<char>) -> nat {
    leading_value(d, point(d))
}

/// Whether the magnitude of the number has a non-zero fractional part.
pub open spec fn has_fraction(d: Seq<char>) -> bool {
    exists|j: int|
        (if point(d) > 0 {
            point(d)
        } else {
            0
        }) <= j < mantissa_len(d) && #[trigger] mantissa_digit(d, j) != 0
}

/// The number is finite: neither not-a-number nor an infinity.
pub open spec fn is_finite(d: Seq<char>) -> bool {
    sign_len(d) < d.len() && (is_digit(d[sign_len(d)]) || d[sign_len(d)] == '.')
}

pub open spec fn is_zero(d: Seq<char>) -> bool {
    int_part(d) == 0 && !has_fraction(d)
}

/// The magnitude is at most the integer `b`.
pub open spec fn magnitude_le(d: Seq<char>, b: nat) -> bool {
    int_part(d) < b || (int_part(d) == b && !has_fraction(d))
}

/// The magnitude is at least the integer `b`.
pub open spec fn magnitude_ge(d: Seq<char>, b: nat) -> bool {
    int_part(d) >= b
}

pub open spec fn value_le(d: Seq<char>, b: int) -> bool {
    if is_zero(d) {
        0 <= b
    } else if is_negative(d) {
        b >= 0 || magnitude_ge(d, (-b) as nat)
    } else {
        b >= 0 && magnitude_le(d, b as nat)
    }
}

pub open spec fn value_ge(d: Seq<char>, b: int) -> bool {
    if is_zero(d) {
        0 >= b
    } else if is_negative(d) {
        b <= 0 && magnitude_le(d, (-b) as nat)
    } else {
        b <= 0 || magnitude_ge(d, b as nat)
    }
}

/// A finite number that lies between `lo` and `hi`, both included.
pub open spec fn within(d: Seq<char>, lo: int, hi: int) -> bool {
    is_finite(d) && value_ge(d, lo) && value_le(d, hi)
}

pub open spec fn pow10(k: nat) -> nat
    decreases k,
{
    if k == 0 {
        1
    } else {
        10 * pow10((k - 1) as nat)
    }
}

proof fn lemma_leading_past_end(d: Seq<char>, m: nat)
    requires
        0 <= int_digits(d) <= mantissa_len(d),
    ensures
        leading_value(d, mantissa_len(d) + m) == leading_value(d, mantissa_len(d)) * pow10(m),
    decreases m,
{
    let n = mantissa_len(d);
    if m == 0 {
        assert(pow10(0) == 1);
        assert(leading_value(d, n) * 1 == leading_value(d, n));
    } else {
        lemma_leading_past_end(d, (m - 1) as nat);
        let j = n + m - 1;
        assert(!(0 <= j < int_digits(d)));
        assert(!(int_digits(d) <= j < mantissa_len(d)));
        assert(mantissa_digit(d, j) == 0);
        let a = leading_value(d, n);
        let p = pow10((m - 1) as nat);
        assert(leading_value(d, n + m) == 10 * leading_value(d, n + m - 1));
        assert(leading_value(d, n + m - 1) == a * p);
        assert(pow10(m) == 10 * p);
        assert(10 * (a * p) == a * (10 * p)) by (nonlinear_arith);
    }
}

proof fn lemma_pow10_grows(k: nat)
    ensures
        pow10(k) >= 1,
        k >= 5 ==> pow10(k) >= 100000,
    decreases k,
{
    if k > 0 {
        lemma_pow10_grows((k - 1) as nat);
        if k >= 5 {
            if k == 5 {
                reveal_with_fuel(pow10, 6);
            }
        }
    }
}

proof fn lemma_leading_nonpositive(d: Seq<char>, t: int)
    requires
        t <= 0,
    ensures
        leading_value(d, t) == 0,
{
}

const CAP: u64 = 100000;

/// The `j`-th mantissa digit, read from the text.
fn digit_at(d: &Vec<char>, sl: usize, ni: usize, fs: usize, n: usize, j: usize) -> (r: u64)
    requires
        sl as int == sign_len(d@),
        ni as int == int_digits(d@),
        fs as int == frac_start(d@),
        n as int == mantissa_len(d@),
        sl <= int_end(d@) <= d@.len(),
        frac_start(d@) <= frac_end(d@) <= d@.len(),
        forall|k: int| sl <= k < int_end(d@) ==> is_digit(#[trigger] d@[k]),
        forall|k: int| frac_start(d@) <= k < frac_end(d@) ==> is_digit(#[trigger] d@[k]),
    ensures
        r as nat == mantissa_digit(d@, j as int),
        r < 10,
{
    if j < ni {
        assert(is_digit(d@[sl + j]));
        (d[sl + j] as u32 - 48) as u64
    } else if j < n {
        let len = d.len();
        assert(fs + (j - ni) < len);
        assert(is_digit(d@[fs + (j - ni)]));
        (d[fs + (j - ni)] as u32 - 48) as u64
    } else {
        0
    }
}

/// The facts about the parts of a finite number that the readers below
/// need.
pub open spec fn parts_ok(d: Seq<char>, sl: usize, ni: usize, fs: usize, n: usize) -> bool {
    &&& sl as int == sign_len(d)
    &&& ni as int == int_digits(d)
    &&& fs as int == frac_start(d)
    &&& n as int == mantissa_len(d)
    &&& sl <= int_end(d) <= d.len()
    &&& frac_start(d) <= frac_end(d) <= d.len()
    &&& 0 <= int_digits(d) <= mantissa_len(d)
    &&& forall|k: int| sl <= k < int_end(d) ==> is_digit(#[trigger] d[k])
    &&& forall|k: int| frac_start(d) <= k < frac_end(d) ==> is_digit(#[trigger] d[k])
}

/// The value of the first `upto` mantissa digits, or `CAP` when it is
/// `CAP` or more.
fn capped_leading(d: &Vec<char>, sl: usize, ni: usize, fs: usize, n: usize, upto: usize) -> (r: u64)
    requires
        parts_ok(d@, sl, ni, fs, n),
        upto <= n,
    ensures
        r <= CAP,
        r < CAP ==> r as nat == leading_value(d@, upto as int),
        r == CAP ==> leading_value(d@, upto as int) >= CAP as nat,
{
    let mut acc: u64 = 0;
    let mut t: usize = 0;
    while t < upto
        invariant
            parts_ok(d@, sl, ni, fs, n),
            t <= upto <= n,
            acc <= CAP,
            acc < CAP ==> acc as nat == leading_value(d@, t as int),
            acc == CAP ==> leading_value(d@, t as int) >= CAP as nat,
        decreases upto - t,
    {
        let dg = digit_at(d, sl, ni, fs, n, t);
        let ghost lv = leading_value(d@, t as int);
        assert(leading_value(d@, t + 1) == 10 * lv + dg);
        if acc >= CAP / 10 {
            assert(10 * lv + dg >= 100000) by (nonlinear_arith)
                requires
                    acc >= 10000,
                    acc <= 100000,
                    acc < 100000 ==> acc as nat == lv,
                    acc == 100000 ==> lv >= 100000,
            ;
            acc = CAP;
        } else {
            let v = 10 * acc + dg;
            acc = if v >= CAP {
                CAP
            } else {
                v
            };
        }
        t = t + 1;
    }
    acc
}

/// `acc` times ten to the `m`, or `CAP` when that is `CAP` or more.
fn capped_shift(acc: u64, m: u64, Ghost(lv): Ghost<nat>) -> (r: u64)
    requires
        acc <= CAP,
        acc < CAP ==> acc as nat == lv,
        acc == CAP ==> lv >= CAP as nat,
        m < 5,
    ensures
        r <= CAP,
        r < CAP ==> r as nat == lv * pow10(m as nat),
        r == CAP ==> lv * pow10(m as nat) >= CAP as nat,
{
    let mut k = acc;
    let mut i: u64 = 0;
    assert(pow10(0) == 1);
    assert(lv * pow10(0) == lv);
    while i < m
        invariant
            i <= m,
            k <= CAP,
            k < CAP ==> k as nat == lv * pow10(i as nat),
            k == CAP ==> lv * pow10(i as nat) >= CAP as nat,
        decreases m - i,
    {
        let ghost before = lv * pow10(i as nat);
        assert(lv * pow10((i + 1) as nat) == 10 * before) by {
            assert(pow10((i + 1) as nat) == 10 * pow10(i as nat));
            assert(lv * (10 * pow10(i as nat)) == 10 * (lv * pow10(i as nat))) by (nonlinear_arith);
        }
        if k >= CAP / 10 {
            assert(10 * before >= 100000) by (nonlinear_arith)
                requires
                    k >= 10000,
                    k <= 100000,
                    k < 100000 ==> k as nat == before,
                    k == 100000 ==> before >= 100000,
            ;
            k = CAP;
        } else {
            k = 10 * k;
        }
        i = i + 1;
    }
    k
}

/// Whether a mantissa digit from `start` on is not zero.
fn nonzero_from(d: &Vec<char>, sl: usize, ni: usize, fs: usize, n: usize, start: usize) -> (r: bool)
    requires
        parts_ok(d@, sl, ni, fs, n),
        start <= n,
    ensures
        r <==> exists|q: int| start <= q < n && #[trigger] mantissa_digit(d@, q) != 0,
{
    let mut j = start;
    while j < n
        invariant
            parts_ok(d@, sl, ni, fs, n),
            start <= j <= n,
            forall|q: int| start <= q < j ==> #[trigger] mantissa_digit(d@, q) == 0,
        decreases n - j,
    {
        if digit_at(d, sl, ni, fs, n, j) != 0 {
            return true;
        }
        j = j + 1;
    }
    false
}

/// The exponent of a finite number, saturated at `cap + 1` either way.
fn exponent_of(d: &Vec<char>, fe: usize, cap: u128) -> (r: i128)
    requires
        fe as int == frac_end(d@),
        fe <= d@.len(),
        cap < 0x1000_0000_0000_0000_0000_0000_0000,
    ensures
        -(cap + 1) <= r <= cap + 1,
        (-cap <= r <= cap) ==> r == exponent_value(d@),
        r == cap + 1 ==> exponent_value(d@) >= cap + 1,
        r == -(cap + 1) ==> exponent_value(d@) <= -(cap + 1),
{
    if fe < d.len() && (d[fe] == 'e' || d[fe] == 'E') {
        let j = if fe + 1 < d.len() && (d[fe + 1] == '+' || d[fe + 1] == '-') {
            fe + 2
        } else {
            fe + 1
        };
        let k = digits_end(d, j);
        proof {
            lemma_digit_run_end(d@, j as int, k as int);
        }
        let eneg = fe + 1 < d.len() && d[fe + 1] == '-';
        match digits_upto(d, j, k, cap) {
            Some(v) => if eneg {
                0 - (v as i128)
            } else {
                v as i128
            },
            None => if eneg {
                0 - ((cap + 1) as i128)
            } else {
                (cap + 1) as i128
            },
        }
    } else {
        0
    }
}

/// Whether a decimal number, written as the lexer takes it, lies between
/// `lo` and `hi`, both included, compared exactly. Not-a-number and the
/// infinities lie in no such range. The integer part is only followed up
/// to 100000, so the bounds are limited to magnitudes of at most 10000,
/// which covers the ranges the chart format uses (the EXWAV pitch, volume
/// and frequency).
#[verifier::rlimit(50)]
pub(crate) fn decimal_within(text: &String, lo: i64, hi: i64) -> (r: bool)
    requires
        -10000 <= lo <= 10000,
        -10000 <= hi <= 10000,
    ensures
        r == within(text@, lo as int, hi as int),
{
    let d = chars_of(text.as_str());
    let ghost g = d@;
    let sl: usize = if d.len() > 0 && (d[0] == '+' || d[0] == '-') {
        1
    } else {
        0
    };
    if !(sl < d.len() && (is_digit_char(d[sl]) || d[sl] == '.')) {
        return false;
    }
    let neg = d.len() > 0 && d[0] == '-';
    let ie = digits_end(&d, sl);
    proof {
        lemma_digit_run_end(g, sl as int, ie as int);
    }
    let fs = if ie < d.len() && d[ie] == '.' {
        ie + 1
    } else {
        ie
    };
    let fe = digits_end(&d, fs);
    proof {
        lemma_digit_run_end(g, fs as int, fe as int);
    }
    let ni = ie - sl;
    let n = ni + (fe - fs);
    assert(parts_ok(g, sl, ni, fs, n));
    let cap = d.len() as u128 + 8;
    let x = exponent_of(&d, fe, cap);
    let pt: i128 = ni as i128 + x;
    let k = capped_int_part(&d, sl, ni, fs, n, pt, x, cap);
    let start: usize = if pt <= 0 {
        0
    } else if pt >= n as i128 {
        n
    } else {
        pt as usize
    };
    let frac = nonzero_from(&d, sl, ni, fs, n, start);
    proof {
        assert(frac == has_fraction(g));
    }
    let zero = k == 0 && !frac;
    let le_hi = if zero {
        0 <= hi
    } else if neg {
        hi >= 0 || k >= (0 - hi) as u64
    } else {
        hi >= 0 && (k < hi as u64 || (k == hi as u64 && !frac))
    };
    let ge_lo = if zero {
        0 >= lo
    } else if neg {
        lo <= 0 && (k < (0 - lo) as u64 || (k == (0 - lo) as u64 && !frac))
    } else {
        lo <= 0 || k >= lo as u64
    };
    le_hi && ge_lo
}

/// The integer part of the magnitude, or `CAP` when it is `CAP` or more.
fn capped_int_part(
    d: &Vec<char>,
    sl: usize,
    ni: usize,
    fs: usize,
    n: usize,
    pt: i128,
    x: i128,
    cap: u128,
) -> (r: u64)
    requires
        parts_ok(d@, sl, ni, fs, n),
        cap == d@.len() + 8,
        pt == ni + x,
        -(cap + 1) <= x <= cap + 1,
        (-cap <= x <= cap) ==> x == exponent_value(d@),
        x == cap + 1 ==> exponent_value(d@) >= cap + 1,
        x == -(cap + 1) ==> exponent_value(d@) <= -(cap + 1),
    ensures
        r <= CAP,
        r < CAP ==> r as nat == int_part(d@),
        r == CAP ==> int_part(d@) >= CAP as nat,
{
    let ghost g = d@;
    proof {
        if -cap <= x <= cap {
            assert(point(g) == pt);
        } else if x == cap + 1 {
            assert(point(g) >= pt);
        } else {
            assert(point(g) <= pt);
        }
    }
    if pt <= 0 {
        proof {
            assert(point(g) <= 0);
            lemma_leading_nonpositive(g, point(g));
            assert(int_part(g) == 0);
        }
        return 0;
    }
    if pt <= n as i128 {
        assert(point(g) == pt);
        return capped_leading(d, sl, ni, fs, n, pt as usize);
    }
    let acc = capped_leading(d, sl, ni, fs, n, n);
    let ghost mm = (point(g) - n) as nat;
    proof {
        assert(point(g) >= pt);
        lemma_leading_past_end(g, mm);
        lemma_pow10_grows(mm);
        assert(n + mm == point(g));
    }
    if acc == 0 {
        proof {
            assert(leading_value(g, n as int) == 0);
            assert(0 * pow10(mm) == 0);
            assert(int_part(g) == leading_value(g, n + mm));
        }
        return 0;
    }
    if acc == CAP {
        proof {
            assert(leading_value(g, n as int) * pow10(mm) >= leading_value(g, n as int))
                by (nonlinear_arith)
                requires
                    pow10(mm) >= 1,
            ;
        }
        return CAP;
    }
    let m = pt - n as i128;
    if m >= 5 {
        proof {
            assert(mm >= 5);
            assert(leading_value(g, n as int) * pow10(mm) >= 100000) by (nonlinear_arith)
                requires
                    leading_value(g, n as int) >= 1,
                    pow10(mm) >= 100000,
            ;
        }
        return CAP;
    }
    assert(point(g) == pt);
    capped_shift(acc, m as u64, Ghost(leading_value(g, n as int)))
}

} // verus!
