//! The line lexer: each line of a chart becomes at most one token.
use vstd::prelude::*;
use vstd::string::{StrSliceExecFns, StringExecFns};

use crate::channel::{digit_value, Channel};
use crate::decimal::within;
use crate::token::{Command, ControlFlow, Decimal, MainDataValue, Token};

verus! {

/// Whether `c` has the Unicode White_Space property.
pub open spec fn is_ws(c: char) -> bool {
    let v = c as u32;
    (9 <= v <= 13) || v == 32 || v == 0x85 || v == 0xA0 || v == 0x1680 || (0x2000 <= v <= 0x200A)
        || v == 0x2028 || v == 0x2029 || v == 0x202F || v == 0x205F || v == 0x3000
}

pub open spec fn is_digit(c: char) -> bool {
    '0' <= c <= '9'
}

pub open spec fn is_alnum(c: char) -> bool {
    ('0' <= c <= '9') || ('A' <= c <= 'Z') || ('a' <= c <= 'z')
}

pub open spec fn is_hex(c: char) -> bool {
    ('0' <= c <= '9') || ('A' <= c <= 'F') || ('a' <= c <= 'f')
}

/// The ASCII lower-case form of a character.
pub open spec fn lower_ascii(c: char) -> char {
    if 'A' <= c <= 'Z' {
        ((c as u32) + 32) as char
    } else {
        c
    }
}

/// Whether `kw` stands at position `i` of `s`, ignoring ASCII case.
pub open spec fn caseless_at(s: Seq<char>, i: int, kw: Seq<char>) -> bool {
    &&& 0 <= i
    &&& i + kw.len() <= s.len()
    &&& forall|j: int| 0 <= j < kw.len() ==> lower_ascii(#[trigger] s[i + j]) == lower_ascii(kw[j])
}

/// The value of the decimal digits `s[i..j]`.
pub open spec fn digits_value(s: Seq<char>, i: int, j: int) -> nat
    decreases j - i,
{
    if j <= i {
        0
    } else {
        10 * digits_value(s, i, j - 1) + ((s[j - 1] as u32) - 48) as nat
    }
}

/// The characters of a string.
pub fn chars_of(s: &str) -> (r: Vec<char>)
    ensures
        r@ == s@,
{
    let mut r: Vec<char> = Vec::new();
    let n = s.unicode_len();
    let mut i: usize = 0;
    while i < n
        invariant
            n == s@.len(),
            i <= n,
            r@ == s@.subrange(0, i as int),
        decreases n - i,
    {
        r.push(s.get_char(i));
        i = i + 1;
        assert(r@ =~= s@.subrange(0, i as int));
    }
    r
}

/// Relies on `String::push`: appends the character.
#[verifier::external_body]
fn push_char(s: &mut String, c: char)
    ensures
        final(s)@ == old(s)@.push(c),
{
    s.push(c)
}

/// Relies on `char::from_u32`: a Unicode scalar value gives its character,
/// a surrogate or a value above 0x10FFFF gives nothing.
#[verifier::external_body]
fn char_from_u32(v: u32) -> (r: Option<char>)
    ensures
        r is Some <==> (v < 0xD800 || (0xDFFF < v && v <= 0x10FFFF)),
        r matches Some(c) ==> c as u32 == v,
{
    char::from_u32(v)
}

pub fn is_whitespace(c: char) -> (r: bool)
    ensures
        r == is_ws(c),
{
    let v = c as u32;
    (9 <= v && v <= 13) || v == 32 || v == 0x85 || v == 0xA0 || v == 0x1680 || (0x2000 <= v && v
        <= 0x200A) || v == 0x2028 || v == 0x2029 || v == 0x202F || v == 0x205F || v == 0x3000
}

pub fn is_digit_char(c: char) -> (r: bool)
    ensures
        r == is_digit(c),
{
    '0' <= c && c <= '9'
}

fn is_alnum_char(c: char) -> (r: bool)
    ensures
        r == is_alnum(c),
{
    ('0' <= c && c <= '9') || ('A' <= c && c <= 'Z') || ('a' <= c && c <= 'z')
}

fn is_hex_char(c: char) -> (r: bool)
    ensures
        r == is_hex(c),
{
    ('0' <= c && c <= '9') || ('A' <= c && c <= 'F') || ('a' <= c && c <= 'f')
}

fn lower_char(c: char) -> (r: char)
    ensures
        r == lower_ascii(c),
{
    if 'A' <= c && c <= 'Z' {
        let v = (c as u8) + 32;
        v as char
    } else {
        c
    }
}

/// The end of the whitespace run from `i` on.
pub fn space0(s: &Vec<char>, i: usize) -> (r: usize)
    requires
        i <= s@.len(),
    ensures
        i <= r <= s@.len(),
        forall|j: int| i <= j < r ==> is_ws(#[trigger] s@[j]),
        r == s@.len() || !is_ws(s@[r as int]),
{
    let mut j = i;
    while j < s.len() && is_whitespace(s[j])
        invariant
            i <= j <= s@.len(),
            forall|k: int| i <= k < j ==> is_ws(#[trigger] s@[k]),
        decreases s@.len() - j,
    {
        j = j + 1;
    }
    j
}

/// The end of a non-empty whitespace run from `i` on.
pub fn space1(s: &Vec<char>, i: usize) -> (r: Option<usize>)
    requires
        i <= s@.len(),
    ensures
        r is Some <==> (i < s@.len() && is_ws(s@[i as int])),
        r matches Some(e) ==> i < e <= s@.len() && (forall|j: int| i <= j < e ==> is_ws(#[trigger] s@[j]))
            && (e == s@.len() || !is_ws(s@[e as int])),
{
    let e = space0(s, i);
    if e > i {
        Some(e)
    } else {
        None
    }
}

/// One whitespace character at `i`.
pub fn one_space(s: &Vec<char>, i: usize) -> (r: Option<usize>)
    requires
        i <= s@.len(),
    ensures
        r is Some <==> (i < s@.len() && is_ws(s@[i as int])),
        r matches Some(e) ==> e == i + 1,
{
    if i < s.len() && is_whitespace(s[i]) {
        Some(i + 1)
    } else {
        None
    }
}

/// The end of `kw` matched at `i` ignoring ASCII case.
pub fn keyword(s: &Vec<char>, i: usize, kw: &str) -> (r: Option<usize>)
    requires
        i <= s@.len(),
    ensures
        r is Some <==> caseless_at(s@, i as int, kw@),
        r matches Some(e) ==> e == i + kw@.len(),
{
    let k = chars_of(kw);
    let n = s.len();
    if k.len() > n - i {
        return None;
    }
    let mut j: usize = 0;
    while j < k.len()
        invariant
            n == s@.len(),
            k@ == kw@,
            i + k@.len() <= s@.len(),
            j <= k@.len(),
            forall|t: int| 0 <= t < j ==> lower_ascii(#[trigger] s@[i + t]) == lower_ascii(k@[t]),
        decreases k@.len() - j,
    {
        assert(i + j < s@.len());
        if lower_char(s[i + j]) != lower_char(k[j]) {
            return None;
        }
        j = j + 1;
    }
    Some(i + k.len())
}

/// A single character `c` at `i`.
pub fn literal(s: &Vec<char>, i: usize, c: char) -> (r: Option<usize>)
    requires
        i <= s@.len(),
    ensures
        r is Some <==> (i < s@.len() && s@[i as int] == c),
        r matches Some(e) ==> e == i + 1,
{
    if i < s.len() && s[i] == c {
        Some(i + 1)
    } else {
        None
    }
}

/// Two ASCII letters or digits at `i`, as a channel.
pub fn channel_at(s: &Vec<char>, i: usize) -> (r: Option<(Channel, usize)>)
    requires
        i <= s@.len(),
    ensures
        r is Some <==> (i + 2 <= s@.len() && is_alnum(s@[i as int]) && is_alnum(s@[i + 1])),
        r matches Some((ch, e)) ==> e == i + 2 && ch.first() == digit_value(s@[i as int] as u8)
            && ch.second() == digit_value(s@[i + 1] as u8),
{
    if i < s.len() && s.len() - i >= 2 && is_alnum_char(s[i]) && is_alnum_char(s[i + 1]) {
        Some((Channel::from_chars(s[i], s[i + 1]), i + 2))
    } else {
        None
    }
}

/// The end of the run of decimal digits from `i` on.
pub fn digits_end(s: &Vec<char>, i: usize) -> (r: usize)
    requires
        i <= s@.len(),
    ensures
        i <= r <= s@.len(),
        forall|j: int| i <= j < r ==> is_digit(#[trigger] s@[j]),
        r == s@.len() || !is_digit(s@[r as int]),
{
    let mut j = i;
    while j < s.len() && is_digit_char(s[j])
        invariant
            i <= j <= s@.len(),
            forall|k: int| i <= k < j ==> is_digit(#[trigger] s@[k]),
        decreases s@.len() - j,
    {
        j = j + 1;
    }
    j
}

proof fn lemma_digits_value_grows(s: Seq<char>, i: int, j: int, k: int)
    requires
        i <= j <= k,
        forall|t: int| i <= t < k ==> is_digit(#[trigger] s[t]),
    ensures
        digits_value(s, i, j) <= digits_value(s, i, k),
    decreases k - j,
{
    if j < k {
        lemma_digits_value_grows(s, i, j, k - 1);
        assert(is_digit(s[k - 1]));
    }
}

/// The value of the digits `s[i..j]` when it is at most `max`.
pub fn digits_upto(s: &Vec<char>, i: usize, j: usize, max: u128) -> (r: Option<u128>)
    requires
        i <= j <= s@.len(),
        forall|t: int| i <= t < j ==> is_digit(#[trigger] s@[t]),
    ensures
        r is Some <==> digits_value(s@, i as int, j as int) <= max,
        r matches Some(v) ==> v == digits_value(s@, i as int, j as int),
{
    let mut acc: u128 = 0;
    let mut k = i;
    while k < j
        invariant
            i <= k <= j,
            j <= s@.len(),
            forall|t: int| i <= t < j ==> is_digit(#[trigger] s@[t]),
            acc == digits_value(s@, i as int, k as int),
            acc <= max,
        decreases j - k,
    {
        assert(is_digit(s@[k as int]));
        let d = (s[k] as u32 - 48) as u128;
        if d > max || acc > (max - d) / 10 {
            proof {
                assert(10 * acc + d > max) by (nonlinear_arith)
                    requires
                        d > max || acc > (max - d) / 10,
                        d <= max ==> (max - d) / 10 * 10 + 10 > max - d,
                ;
                lemma_digits_value_grows(s@, i as int, k + 1, j as int);
            }
            return None;
        }
        proof {
            assert(10 * acc + d <= max) by (nonlinear_arith)
                requires
                    acc <= (max - d) / 10,
                    d <= max,
            ;
        }
        acc = 10 * acc + d;
        k = k + 1;
    }
    Some(acc)
}

/// An unsigned decimal integer at `i` as written by `[1-9][0-9]*` or `0`,
/// when its value is at most `max`.
pub fn dec_uint(s: &Vec<char>, i: usize, max: u128) -> (r: Option<(u128, usize)>)
    requires
        i <= s@.len(),
    ensures
        r matches Some((v, e)) ==> i < e <= s@.len() && v == digits_value(s@, i as int, e as int)
            && v <= max && (forall|t: int| i <= t < e ==> is_digit(#[trigger] s@[t])),
        r is None <==> !uint_accepts(s@, i as int, max as nat),
        r matches Some((v, e)) ==> v == uint_value(s@, i as int) && e == uint_end(s@, i as int),
{
    if i < s.len() && '1' <= s[i] && s[i] <= '9' {
        let e = digits_end(s, i);
        proof {
            lemma_digit_run_end(s@, i as int, e as int);
        }
        match digits_upto(s, i, e, max) {
            Some(v) => Some((v, e)),
            None => None,
        }
    } else if i < s.len() && s[i] == '0' {
        proof {
            reveal_with_fuel(digits_value, 2);
        }
        assert(digits_value(s@, i as int, i + 1) == 0);
        Some((0, i + 1))
    } else {
        None
    }
}

/// The value of the unsigned integer written at `i`: 0 for a leading `0`,
/// else the value of the run of digits.
pub open spec fn uint_value(s: Seq<char>, i: int) -> nat {
    if s[i] == '0' {
        0
    } else {
        digits_value(s, i, digit_run_end(s, i))
    }
}

/// Where the unsigned integer written at `i` ends.
pub open spec fn uint_end(s: Seq<char>, i: int) -> int {
    if s[i] == '0' {
        i + 1
    } else {
        digit_run_end(s, i)
    }
}

/// The value of the signed integer written at `i`.
pub open spec fn int_value(s: Seq<char>, i: int) -> int {
    if s[i] == '-' {
        -uint_value(s, i + 1)
    } else if s[i] == '+' {
        uint_value(s, i + 1) as int
    } else {
        uint_value(s, i) as int
    }
}

/// An unsigned integer of at most `max` can be read at `i`: a lone `0`,
/// or digits not starting with `0` whose value is at most `max`.
pub open spec fn uint_accepts(s: Seq<char>, i: int, max: nat) -> bool {
    &&& 0 <= i < s.len()
    &&& (s[i] == '0' || ('1' <= s[i] <= '9' && digits_value(s, i, digit_run_end(s, i)) <= max))
}

/// The number 62 is written at `k`, with an optional `+` sign.
pub open spec fn base62_text_at(s: Seq<char>, k: int) -> bool {
    let j = if 0 <= k < s.len() && s[k] == '+' {
        k + 1
    } else {
        k
    };
    &&& 0 <= j
    &&& j + 2 <= s.len()
    &&& s[j] == '6'
    &&& s[j + 1] == '2'
    &&& (j + 2 == s.len() || !is_digit(s[j + 2]))
}

/// `BASE`, whitespace, and the number 62.
fn base62_marker(s: &Vec<char>, i: usize) -> (r: bool)
    requires
        i <= s@.len(),
    ensures
        r <==> rest_accepts(s@, i as int, "BASE"@) && base62_text_at(
            s@,
            value_at(s@, i as int, "BASE"@),
        ),
        r ==> int_kw(s@, i as int, "BASE"@, 62),
{
    proof {
        reveal_strlit("BASE");
    }
    let j = match keyword(s, i, "BASE") {
        Some(j) => j,
        None => return false,
    };
    let k = match space1(s, j) {
        Some(k) => k,
        None => return false,
    };
    proof {
        lemma_space_end(s@, j as int, k as int);
    }
    let d = if k < s.len() && s[k] == '+' {
        k + 1
    } else {
        k
    };
    if d < s.len() && s.len() - d >= 2 && s[d] == '6' && s[d + 1] == '2' && (d + 2 == s.len()
        || !is_digit_char(s[d + 2])) {
        proof {
            lemma_digit_run_end(s@, d as int, d + 2);
            reveal_with_fuel(digits_value, 3);
            assert(digits_value(s@, d as int, d + 2) == 62);
        }
        true
    } else {
        false
    }
}

/// A signed integer that fits in an `i32` can be read at `i`: a sign and
/// digits not starting with `0`, or an unsigned integer.
pub open spec fn int_accepts(s: Seq<char>, i: int) -> bool {
    if 0 <= i < s.len() && (s[i] == '+' || s[i] == '-') {
        &&& i + 1 < s.len()
        &&& '1' <= s[i + 1] <= '9'
        &&& digits_value(s, i + 1, digit_run_end(s, i + 1)) <= if s[i] == '-' {
            2147483648nat
        } else {
            2147483647nat
        }
    } else {
        uint_accepts(s, i, 2147483647)
    }
}

/// `kw` at `i`, whitespace, and a signed integer from `lo` to `hi`.
pub open spec fn int_kw_accepts(s: Seq<char>, i: int, kw: Seq<char>, lo: int, hi: int) -> bool {
    &&& rest_accepts(s, i, kw)
    &&& int_accepts(s, value_at(s, i, kw))
    &&& lo <= int_value(s, value_at(s, i, kw)) <= hi
}

/// `kw` at `i`, whitespace, and an unsigned integer of at most `max`.
pub open spec fn uint_kw_accepts(s: Seq<char>, i: int, kw: Seq<char>, max: nat) -> bool {
    rest_accepts(s, i, kw) && uint_accepts(s, space_end_spec(s, i + kw.len()), max)
}

/// A signed decimal integer at `i` that fits in an `i32`: an optional sign
/// and `[1-9][0-9]*`, or `0` alone.
pub fn dec_int(s: &Vec<char>, i: usize) -> (r: Option<(i32, usize)>)
    requires
        i <= s@.len(),
    ensures
        r matches Some((v, e)) ==> i < e <= s@.len() && (if s@[i as int] == '-' {
            v == -digits_value(s@, i + 1, e as int)
        } else if s@[i as int] == '+' {
            v == digits_value(s@, i + 1, e as int)
        } else {
            v == digits_value(s@, i as int, e as int)
        }),
        r matches Some((v, e)) ==> v == int_value(s@, i as int),
        r is None <==> !int_accepts(s@, i as int),
{
    if i < s.len() && (s[i] == '+' || s[i] == '-') {
        let neg = s[i] == '-';
        if i + 1 < s.len() && '1' <= s[i + 1] && s[i + 1] <= '9' {
            let e = digits_end(s, i + 1);
            proof {
                lemma_digit_run_end(s@, i + 1, e as int);
            }
            let max: u128 = if neg {
                2147483648
            } else {
                2147483647
            };
            match digits_upto(s, i + 1, e, max) {
                Some(v) => {
                    if neg {
                        Some(((0 - v as i128) as i32, e))
                    } else {
                        Some((v as i32, e))
                    }
                },
                None => None,
            }
        } else {
            None
        }
    } else {
        match dec_uint(s, i, 2147483647) {
            Some((v, e)) => Some((v as i32, e)),
            None => None,
        }
    }
}

/// The value of the digits at `i`, or 0 when it is above `max`.
pub open spec fn padded_value(s: Seq<char>, i: int, max: nat) -> nat {
    let v = digits_value(s, i, digit_run_end(s, i));
    if v <= max {
        v
    } else {
        0
    }
}

/// The digits at `i`, at least one, with their value, or 0 when the value
/// is above `max`.
pub fn padded_uint(s: &Vec<char>, i: usize, max: u128) -> (r: Option<(u128, usize)>)
    requires
        i <= s@.len(),
    ensures
        r matches Some((v, e)) ==> i < e <= s@.len() && v <= max && (v == digits_value(
            s@,
            i as int,
            e as int,
        ) || (v == 0 && digits_value(s@, i as int, e as int) > max)),
        r matches Some((v, e)) ==> v == padded_value(s@, i as int, max as nat) && e == digit_run_end(
            s@,
            i as int,
        ),
        r is None <==> !(0 <= i < s@.len() && is_digit(s@[i as int])),
{
    let e = digits_end(s, i);
    proof {
        lemma_digit_run_end(s@, i as int, e as int);
    }
    if e == i {
        return None;
    }
    match digits_upto(s, i, e, max) {
        Some(v) => Some((v, e)),
        None => Some((0, e)),
    }
}

/// The end of the run of decimal digits from `i` on.
pub open spec fn digit_run_end(s: Seq<char>, i: int) -> int
    decreases s.len() - i,
{
    if i < 0 || i >= s.len() || !is_digit(s[i]) {
        i
    } else {
        digit_run_end(s, i + 1)
    }
}

pub proof fn lemma_digit_run_end(s: Seq<char>, i: int, e: int)
    requires
        0 <= i <= e <= s.len(),
        forall|j: int| i <= j < e ==> is_digit(#[trigger] s[j]),
        e == s.len() || !is_digit(s[e]),
    ensures
        digit_run_end(s, i) == e,
    decreases e - i,
{
    if i < e {
        lemma_digit_run_end(s, i + 1, e);
    }
}

/// The end of an optional exponent at `i`: `e` or `E`, an optional sign,
/// and at least one digit. `None` when an exponent is begun and not
/// finished.
pub open spec fn exponent_end(s: Seq<char>, i: int) -> Option<int> {
    if 0 <= i < s.len() && (s[i] == 'e' || s[i] == 'E') {
        let j = if i + 1 < s.len() && (s[i + 1] == '+' || s[i + 1] == '-') {
            i + 2
        } else {
            i + 1
        };
        if digit_run_end(s, j) > j {
            Some(digit_run_end(s, j))
        } else {
            None
        }
    } else {
        Some(i)
    }
}

/// The end of a number without a sign at `i`: `inf` or `infinity` in any
/// case, a fraction alone (`.5`), or digits with an optional fraction whose
/// digits may be missing (`80.`), the last two with an optional exponent.
pub open spec fn unsigned_float_end(s: Seq<char>, i: int) -> Option<int> {
    if 0 <= i < s.len() && (s[i] == 'i' || s[i] == 'I') {
        if caseless_at(s, i, "inf"@) {
            if caseless_at(s, i + "inf"@.len(), "inity"@) {
                Some(i + "inf"@.len() + "inity"@.len())
            } else {
                Some(i + "inf"@.len())
            }
        } else {
            None
        }
    } else if 0 <= i < s.len() && s[i] == '.' {
        if digit_run_end(s, i + 1) > i + 1 {
            exponent_end(s, digit_run_end(s, i + 1))
        } else {
            None
        }
    } else if digit_run_end(s, i) > i {
        let e = digit_run_end(s, i);
        if e < s.len() && s[e] == '.' {
            exponent_end(s, digit_run_end(s, e + 1))
        } else {
            exponent_end(s, e)
        }
    } else {
        None
    }
}

/// The end of a decimal number at `i`: `nan` in any case, or an optional
/// sign and a number without a sign.
pub open spec fn float_text_end(s: Seq<char>, i: int) -> Option<int> {
    if 0 <= i < s.len() && (s[i] == 'n' || s[i] == 'N') {
        if caseless_at(s, i, "nan"@) {
            Some(i + "nan"@.len())
        } else {
            None
        }
    } else if 0 <= i < s.len() && (s[i] == '+' || s[i] == '-') {
        unsigned_float_end(s, i + 1)
    } else {
        unsigned_float_end(s, i)
    }
}

fn exponent(s: &Vec<char>, i: usize) -> (r: Option<usize>)
    requires
        i <= s@.len(),
    ensures
        r is None <==> exponent_end(s@, i as int) is None,
        r matches Some(e) ==> exponent_end(s@, i as int) == Some(e as int),
        r matches Some(e) ==> i <= e <= s@.len(),
{
    if i < s.len() && (s[i] == 'e' || s[i] == 'E') {
        let j = if i + 1 < s.len() && (s[i + 1] == '+' || s[i + 1] == '-') {
            i + 2
        } else {
            i + 1
        };
        let k = digits_end(s, j);
        proof {
            lemma_digit_run_end(s@, j as int, k as int);
        }
        if k > j {
            Some(k)
        } else {
            None
        }
    } else {
        Some(i)
    }
}

/// The end of a number without a sign at `i`: `inf` or `infinity`, digits
/// with an optional fraction, or a fraction alone, each with an optional
/// exponent.
fn unsigned_float(s: &Vec<char>, i: usize) -> (r: Option<usize>)
    requires
        i <= s@.len(),
    ensures
        r is None <==> unsigned_float_end(s@, i as int) is None,
        r matches Some(e) ==> unsigned_float_end(s@, i as int) == Some(e as int),
        r matches Some(e) ==> i < e <= s@.len(),
{
    proof {
        reveal_strlit("inf");
        reveal_strlit("inity");
    }
    if i < s.len() && (s[i] == 'i' || s[i] == 'I') {
        match keyword(s, i, "inf") {
            Some(e) => match keyword(s, e, "inity") {
                Some(e2) => Some(e2),
                None => Some(e),
            },
            None => None,
        }
    } else if i < s.len() && s[i] == '.' {
        let e = digits_end(s, i + 1);
        proof {
            lemma_digit_run_end(s@, i + 1, e as int);
        }
        if e == i + 1 {
            return None;
        }
        exponent(s, e)
    } else {
        let e = digits_end(s, i);
        proof {
            lemma_digit_run_end(s@, i as int, e as int);
        }
        if e == i {
            return None;
        }
        let f = if e < s.len() && s[e] == '.' {
            let f = digits_end(s, e + 1);
            proof {
                lemma_digit_run_end(s@, e + 1, f as int);
            }
            f
        } else {
            e
        };
        exponent(s, f)
    }
}

/// The end of a decimal number at `i`: `nan`, or an optional sign and a
/// number without a sign, all letters in either case.
pub fn float_end(s: &Vec<char>, i: usize) -> (r: Option<usize>)
    requires
        i <= s@.len(),
    ensures
        r is None <==> float_text_end(s@, i as int) is None,
        r matches Some(e) ==> float_text_end(s@, i as int) == Some(e as int),
        r matches Some(e) ==> i < e <= s@.len(),
{
    proof {
        reveal_strlit("nan");
    }
    if i < s.len() && (s[i] == 'n' || s[i] == 'N') {
        keyword(s, i, "nan")
    } else if i < s.len() && (s[i] == '+' || s[i] == '-') {
        unsigned_float(s, i + 1)
    } else {
        unsigned_float(s, i)
    }
}

/// The characters `from..to` of a line as a string.
pub fn slice_string(line: &str, s: &Vec<char>, from: usize, to: usize) -> (r: String)
    requires
        s@ == line@,
        from <= to <= s@.len(),
    ensures
        r@ == s@.subrange(from as int, to as int),
{
    String::from_str(line.substring_char(from, to))
}

/// A decimal number at `i`, kept as written.
pub fn float_at(line: &str, s: &Vec<char>, i: usize) -> (r: Option<(Decimal, usize)>)
    requires
        s@ == line@,
        i <= s@.len(),
    ensures
        r is Some <==> float_text_end(s@, i as int) is Some,
        r matches Some((d, e)) ==> i < e <= s@.len() && float_text_end(s@, i as int) == Some(
            e as int,
        ) && d.text@ == s@.subrange(i as int, e as int),
{
    match float_end(s, i) {
        Some(e) => Some((Decimal { text: slice_string(line, s, i, e) }, e)),
        None => None,
    }
}

/// Whitespace and then a decimal number.
pub fn spaced_float(line: &str, s: &Vec<char>, i: usize) -> (r: Option<(Decimal, usize)>)
    requires
        s@ == line@,
        i <= s@.len(),
    ensures
        r matches Some((d, e)) ==> i < e <= s@.len() && i < s@.len() && is_ws(s@[i as int])
            && decimal_is(s@, space_end_spec(s@, i as int), d.text@) && spaced_float_end(s@, i as int)
            == Some(e as int),
        r is None <==> !spaced_float_at(s@, i as int),
{
    match space1(s, i) {
        Some(j) => {
            proof {
                lemma_space_end(s@, i as int, j as int);
            }
            float_at(line, s, j)
        },
        None => None,
    }
}

/// Where whitespace at `i` and a decimal number after it end.
pub open spec fn spaced_float_end(s: Seq<char>, i: int) -> Option<int> {
    if 0 <= i < s.len() && is_ws(s[i]) {
        float_text_end(s, space_end_spec(s, i))
    } else {
        None
    }
}

/// Where `n` decimal numbers, each after whitespace, end from `j` on.
pub open spec fn floats_end(s: Seq<char>, j: int, n: nat) -> Option<int>
    decreases n,
{
    if n == 0 {
        Some(j)
    } else {
        match spaced_float_end(s, j) {
            Some(e) => floats_end(s, e, (n - 1) as nat),
            None => None,
        }
    }
}

/// Whitespace at `i`, and then a decimal number.
pub open spec fn spaced_float_at(s: Seq<char>, i: int) -> bool {
    &&& 0 <= i < s.len()
    &&& is_ws(s[i])
    &&& float_text_end(s, space_end_spec(s, i)) is Some
}

/// Two ASCII letters or digits at `i`.
pub open spec fn channel_text_at(s: Seq<char>, i: int) -> bool {
    0 <= i && i + 2 <= s.len() && is_alnum(s[i]) && is_alnum(s[i + 1])
}

/// `kw` at `i` followed by one whitespace character.
pub open spec fn rest_accepts(s: Seq<char>, i: int, kw: Seq<char>) -> bool {
    caseless_at(s, i, kw) && i + kw.len() < s.len() && is_ws(s[i + kw.len()])
}

/// `kw` at `i`, whitespace, and a decimal number.
pub open spec fn float_accepts(s: Seq<char>, i: int, kw: Seq<char>) -> bool {
    caseless_at(s, i, kw) && spaced_float_at(s, i + kw.len())
}

/// `kw` at `i`, a channel, whitespace, and a decimal number.
pub open spec fn ch_float_accepts(s: Seq<char>, i: int, kw: Seq<char>) -> bool {
    caseless_at(s, i, kw) && channel_text_at(s, i + kw.len()) && spaced_float_at(
        s,
        i + kw.len() + 2,
    )
}

/// `kw` at `i`, a channel, and whitespace.
pub open spec fn ch_rest_accepts(s: Seq<char>, i: int, kw: Seq<char>) -> bool {
    caseless_at(s, i, kw) && channel_text_at(s, i + kw.len()) && i + kw.len() + 2 < s.len()
        && is_ws(s[i + kw.len() + 2])
}

/// `kw` at `i`, a channel, whitespace, and a quoted string.
pub open spec fn ch_quoted_accepts(s: Seq<char>, i: int, kw: Seq<char>) -> bool {
    ch_rest_accepts(s, i, kw) && quoted_at(s, space_end_spec(s, i + kw.len() + 2)) is Some
}

/// `STP`, whitespace, digits, `.`, digits below 1000, and a number after
/// whitespace.
pub open spec fn stp_accepts(s: Seq<char>, i: int) -> bool {
    let k = value_at(s, i, "STP"@);
    let p = digit_run_end(s, k);
    &&& rest_accepts(s, i, "STP"@)
    &&& 0 <= k < s.len() && is_digit(s[k])
    &&& p + 1 < s.len() && s[p] == '.' && is_digit(s[p + 1])
    &&& padded_value(s, p + 1, u32::MAX as nat) < 1000
    &&& spaced_float_end(s, digit_run_end(s, p + 1)) is Some
}

/// `WAVCMD`, whitespace, digits of a value up to 2, a channel after
/// whitespace, and a number after whitespace.
pub open spec fn wav_command_accepts(s: Seq<char>, i: int) -> bool {
    let k = value_at(s, i, "WAVCMD"@);
    let p = digit_run_end(s, k);
    &&& rest_accepts(s, i, "WAVCMD"@)
    &&& 0 <= k < s.len() && is_digit(s[k])
    &&& padded_value(s, k, 2147483647) <= 2
    &&& p < s.len() && is_ws(s[p])
    &&& channel_text_at(s, space_end_spec(s, p))
    &&& spaced_float_end(s, space_end_spec(s, p) + 2) is Some
}

/// `OPTION`, whitespace, a name, `:` and a value.
pub open spec fn option_accepts(s: Seq<char>, i: int) -> bool {
    rest_accepts(s, i, "OPTION"@) && colon_at(s, value_at(s, i, "OPTION"@)) < s.len()
}

/// `CHANGEOPTION`, a channel, whitespace, a name, `:` and a value.
pub open spec fn change_option_accepts(s: Seq<char>, i: int) -> bool {
    &&& caseless_at(s, i, "CHANGEOPTION"@)
    &&& channel_text_at(s, i + 12)
    &&& i + 14 < s.len()
    &&& is_ws(s[i + 14])
    &&& colon_at(s, space_end_spec(s, i + 14)) < s.len()
}

/// `ARGB`, a channel, whitespace, and four bytes.
pub open spec fn argb_accepts(s: Seq<char>, i: int) -> bool {
    &&& caseless_at(s, i, "ARGB"@)
    &&& channel_text_at(s, i + 4)
    &&& i + 6 < s.len()
    &&& is_ws(s[i + 6])
    &&& quad_end(s, space_end_spec(s, i + 6)) is Some
}

/// `EXBMP`, a channel, whitespace, four bytes, and one whitespace character.
pub open spec fn ex_bmp_accepts(s: Seq<char>, i: int) -> bool {
    &&& caseless_at(s, i, "EXBMP"@)
    &&& channel_text_at(s, i + 5)
    &&& i + 7 < s.len()
    &&& is_ws(s[i + 7])
    &&& quad_end(s, space_end_spec(s, i + 7)) matches Some(e) && 0 <= e < s.len() && is_ws(s[e])
}

/// `kw`, a channel, whitespace, a channel, and six numbers after whitespace.
pub open spec fn bga_accepts(s: Seq<char>, i: int, kw: Seq<char>) -> bool {
    &&& caseless_at(s, i, kw)
    &&& channel_text_at(s, i + kw.len())
    &&& i + kw.len() + 2 < s.len()
    &&& is_ws(s[i + kw.len() + 2])
    &&& channel_text_at(s, space_end_spec(s, i + kw.len() + 2))
    &&& floats_end(s, space_end_spec(s, i + kw.len() + 2) + 2, 6) is Some
}

/// The text after `#` at `i` is taken by one of the recognizers named here;
/// such a line never falls back to `Other`.
pub open spec fn plainly_recognized(s: Seq<char>, i: int) -> bool {
    ||| rest_accepts(s, i, "STAGEFILE"@)
    ||| rest_accepts(s, i, "BANNER"@)
    ||| rest_accepts(s, i, "BACKBMP"@)
    ||| rest_accepts(s, i, "CHARFILE"@)
    ||| rest_accepts(s, i, "TITLE"@)
    ||| rest_accepts(s, i, "SUBTITLE"@)
    ||| rest_accepts(s, i, "ARTIST"@)
    ||| rest_accepts(s, i, "SUBARTIST"@)
    ||| rest_accepts(s, i, "MAKER"@)
    ||| rest_accepts(s, i, "GENRE"@)
    ||| rest_accepts(s, i, "COMMENT"@)
    ||| rest_accepts(s, i, "PATH_WAV"@)
    ||| rest_accepts(s, i, "MIDIFILE"@)
    ||| rest_accepts(s, i, "VIDEOFILE"@)
    ||| rest_accepts(s, i, "MOVIE"@)
    ||| rest_accepts(s, i, "PREVIEW"@)
    ||| float_accepts(s, i, "DEFEXRANK"@)
    ||| float_accepts(s, i, "TOTAL"@)
    ||| float_accepts(s, i, "VOLWAV"@)
    ||| float_accepts(s, i, "BPM"@)
    ||| float_accepts(s, i, "BASEBPM"@)
    ||| float_accepts(s, i, "VIDEOf/s"@)
    ||| ch_float_accepts(s, i, "EXRANK"@)
    ||| ch_float_accepts(s, i, "BPM"@)
    ||| ch_float_accepts(s, i, "EXBPM"@)
    ||| ch_float_accepts(s, i, "STOP"@)
    ||| ch_float_accepts(s, i, "SEEK"@)
    ||| ch_float_accepts(s, i, "SCROLL"@)
    ||| ch_float_accepts(s, i, "SPEED"@)
    ||| ch_rest_accepts(s, i, "WAV"@)
    ||| ch_rest_accepts(s, i, "BMP"@)
    ||| ch_quoted_accepts(s, i, "TEXT"@)
    ||| ch_quoted_accepts(s, i, "SONG"@)
    ||| uint_kw_accepts(s, i, "CDDA"@, u32::MAX as nat)
    ||| uint_kw_accepts(s, i, "VIDEOCOLORS"@, u32::MAX as nat)
    ||| uint_kw_accepts(s, i, "VIDEODELAY"@, u32::MAX as nat)
    ||| uint_kw_accepts(s, i, "RANDOM"@, u128::MAX as nat)
    ||| uint_kw_accepts(s, i, "SETRANDOM"@, u128::MAX as nat)
    ||| uint_kw_accepts(s, i, "IF"@, u128::MAX as nat)
    ||| uint_kw_accepts(s, i, "ELSEIF"@, u128::MAX as nat)
    ||| uint_kw_accepts(s, i, "SWITCH"@, u128::MAX as nat)
    ||| uint_kw_accepts(s, i, "SETSWITCH"@, u128::MAX as nat)
    ||| uint_kw_accepts(s, i, "CASE"@, u128::MAX as nat)
    ||| (rest_accepts(s, i, "BASE"@) && base62_text_at(s, value_at(s, i, "BASE"@)))
    ||| main_accepts(s, i)
    ||| ex_wav_accepts(s, i)
    ||| switch_bga_accepts(s, i)
    ||| ex_character_accepts(s, i)
    ||| int_kw_accepts(s, i, "PLAYER"@, 1, 4)
    ||| int_kw_accepts(s, i, "RANK"@, i32::MIN as int, i32::MAX as int)
    ||| int_kw_accepts(s, i, "PLAYLEVEL"@, i32::MIN as int, i32::MAX as int)
    ||| int_kw_accepts(s, i, "DIFFICULTY"@, i32::MIN as int, i32::MAX as int)
    ||| int_kw_accepts(s, i, "LNMODE"@, 1, 3)
    ||| int_kw_accepts(s, i, "LNTYPE"@, 1, 2)
    ||| int_kw_accepts(s, i, "POORBGA"@, 0, 2)
    ||| (rest_accepts(s, i, "LNOBJ"@) && channel_text_at(s, value_at(s, i, "LNOBJ"@)))
    ||| stp_accepts(s, i)
    ||| wav_command_accepts(s, i)
    ||| option_accepts(s, i)
    ||| change_option_accepts(s, i)
    ||| argb_accepts(s, i)
    ||| ex_bmp_accepts(s, i)
    ||| bga_accepts(s, i, "BGA"@)
    ||| bga_accepts(s, i, "@BGA"@)
    ||| caseless_at(s, i, "OCT/FP"@)
    ||| caseless_at(s, i, "ENDRANDOM"@)
    ||| caseless_at(s, i, "ELSE"@)
    ||| caseless_at(s, i, "ENDIF"@)
    ||| caseless_at(s, i, "ENDSW"@)
    ||| caseless_at(s, i, "SKIP"@)
    ||| caseless_at(s, i, "DEFAULT"@)
}

/// Two hexadecimal digits at `i`, as a byte.
pub fn hex_byte(s: &Vec<char>, i: usize) -> (r: Option<(u8, usize)>)
    requires
        i <= s@.len(),
    ensures
        r is Some <==> (i + 2 <= s@.len() && is_hex(s@[i as int]) && is_hex(s@[i + 1])),
        r matches Some((v, e)) ==> e == i + 2 && v == 16 * hex_digit_value(s@[i as int])
            + hex_digit_value(s@[i + 1]),
{
    if i < s.len() && s.len() - i >= 2 && is_hex_char(s[i]) && is_hex_char(s[i + 1]) {
        Some((16 * hex_value(s[i]) + hex_value(s[i + 1]), i + 2))
    } else {
        None
    }
}

fn hex_value(c: char) -> (r: u8)
    requires
        is_hex(c),
    ensures
        r < 16,
        r as nat == hex_digit_value(c),
{
    if '0' <= c && c <= '9' {
        (c as u8) - 48
    } else if 'A' <= c && c <= 'F' {
        (c as u8) - 55
    } else {
        (c as u8) - 87
    }
}

/// Four bytes written in decimal, separated by commas with optional
/// whitespace around them.
/// Where a separator `c` with optional whitespace around it, at `j`, ends.
pub open spec fn sep_end(s: Seq<char>, j: int, c: char) -> Option<int> {
    let k = space_end_spec(s, j);
    if 0 <= k < s.len() && s[k] == c {
        Some(space_end_spec(s, k + 1))
    } else {
        None
    }
}

/// Where a byte written in decimal at `k` ends.
pub open spec fn byte_end(s: Seq<char>, k: int) -> Option<int> {
    if uint_accepts(s, k, 255) {
        Some(uint_end(s, k))
    } else {
        None
    }
}

/// Where a byte and a comma separator after it, at `k`, end.
pub open spec fn byte_comma_end(s: Seq<char>, k: int) -> Option<int> {
    match byte_end(s, k) {
        Some(e) => sep_end(s, e, ','),
        None => None,
    }
}

/// Where four bytes separated by commas, at `k`, end.
pub open spec fn quad_end(s: Seq<char>, k: int) -> Option<int> {
    match byte_comma_end(s, k) {
        Some(k2) => match byte_comma_end(s, k2) {
            Some(k3) => match byte_comma_end(s, k3) {
                Some(k4) => byte_end(s, k4),
                None => None,
            },
            None => None,
        },
        None => None,
    }
}

/// The text from `i` on has the form of a key-triggered image: `SWBGA`, a
/// channel, a decimal number after whitespace, `:`, a decimal number, `:`,
/// a channel, `:`, an unsigned integer, `:`, four bytes, whitespace, and
/// at least one channel.
pub open spec fn switch_bga_accepts(s: Seq<char>, i: int) -> bool {
    &&& caseless_at(s, i, "SWBGA"@)
    &&& channel_text_at(s, i + 5)
    &&& match spaced_float_end(s, i + 7) {
        Some(e1) => match sep_end(s, e1, ':') {
            Some(k1) => match float_text_end(s, k1) {
                Some(e2) => match sep_end(s, e2, ':') {
                    Some(k2) => channel_text_at(s, k2) && match sep_end(s, k2 + 2, ':') {
                        Some(k3) => uint_accepts(s, k3, u32::MAX as nat) && match sep_end(
                            s,
                            uint_end(s, k3),
                            ':',
                        ) {
                            Some(k4) => match quad_end(s, k4) {
                                Some(e5) => 0 <= e5 < s.len() && is_ws(s[e5]) && channel_text_at(
                                    s,
                                    space_end_spec(s, e5),
                                ),
                                None => false,
                            },
                            None => false,
                        },
                        None => false,
                    },
                    None => false,
                },
                None => false,
            },
            None => false,
        },
        None => false,
    }
}

/// The four bytes written from `k` on, separated by commas, are `q`.
pub open spec fn quad_values(s: Seq<char>, k: int, q: Seq<u8>) -> bool {
    let k2 = byte_comma_end(s, k)->0;
    let k3 = byte_comma_end(s, k2)->0;
    let k4 = byte_comma_end(s, k3)->0;
    &&& q.len() == 4
    &&& q[0] as nat == uint_value(s, k)
    &&& q[1] as nat == uint_value(s, k2)
    &&& q[2] as nat == uint_value(s, k3)
    &&& q[3] as nat == uint_value(s, k4)
}

pub fn byte_quad(s: &Vec<char>, i: usize) -> (r: Option<([u8; 4], usize)>)
    requires
        i <= s@.len(),
    ensures
        r matches Some((q, e)) ==> i < e <= s@.len() && quad_end(s@, i as int) == Some(e as int),
        r is None <==> quad_end(s@, i as int) is None,
        r matches Some((q, e)) ==> quad_values(s@, i as int, q@),
{
    let (a, j) = match dec_uint(s, i, 255) {
        Some(x) => x,
        None => return None,
    };
    let j = match comma(s, j) {
        Some(j) => j,
        None => return None,
    };
    let (b, j) = match dec_uint(s, j, 255) {
        Some(x) => x,
        None => return None,
    };
    let j = match comma(s, j) {
        Some(j) => j,
        None => return None,
    };
    let (c, j) = match dec_uint(s, j, 255) {
        Some(x) => x,
        None => return None,
    };
    let j = match comma(s, j) {
        Some(j) => j,
        None => return None,
    };
    let (d, j) = match dec_uint(s, j, 255) {
        Some(x) => x,
        None => return None,
    };
    Some(([a as u8, b as u8, c as u8, d as u8], j))
}

/// A separator: a character `sep` with optional whitespace around it.
fn separator(s: &Vec<char>, i: usize, sep: char) -> (r: Option<usize>)
    requires
        i <= s@.len(),
    ensures
        r matches Some(e) ==> i < e <= s@.len() && sep_end(s@, i as int, sep) == Some(e as int),
        r is None <==> sep_end(s@, i as int, sep) is None,
{
    let j = space0(s, i);
    proof {
        lemma_space_end(s@, i as int, j as int);
    }
    match literal(s, j, sep) {
        Some(k) => {
            let e = space0(s, k);
            proof {
                lemma_space_end(s@, k as int, e as int);
            }
            Some(e)
        },
        None => None,
    }
}

fn comma(s: &Vec<char>, i: usize) -> (r: Option<usize>)
    requires
        i <= s@.len(),
    ensures
        r matches Some(e) ==> i < e <= s@.len() && sep_end(s@, i as int, ',') == Some(e as int),
        r is None <==> sep_end(s@, i as int, ',') is None,
{
    separator(s, i, ',')
}

/// The end of the run of characters other than `c` from `i` on.
pub fn until_char(s: &Vec<char>, i: usize, c: char) -> (r: usize)
    requires
        i <= s@.len(),
    ensures
        i <= r <= s@.len(),
        forall|j: int| i <= j < r ==> #[trigger] s@[j] != c,
        r == s@.len() || s@[r as int] == c,
{
    let mut j = i;
    while j < s.len() && s[j] != c
        invariant
            i <= j <= s@.len(),
            forall|k: int| i <= k < j ==> #[trigger] s@[k] != c,
        decreases s@.len() - j,
    {
        j = j + 1;
    }
    j
}

/// The end of the run of non-whitespace characters from `i` on.
pub fn word_end(s: &Vec<char>, i: usize) -> (r: usize)
    requires
        i <= s@.len(),
    ensures
        i <= r <= s@.len(),
        forall|j: int| i <= j < r ==> !is_ws(#[trigger] s@[j]),
        r == s@.len() || is_ws(s@[r as int]),
{
    let mut j = i;
    while j < s.len() && !is_whitespace(s[j])
        invariant
            i <= j <= s@.len(),
            forall|k: int| i <= k < j ==> !is_ws(#[trigger] s@[k]),
        decreases s@.len() - j,
    {
        j = j + 1;
    }
    j
}

/// The character that a simple escape `\c` stands for.
pub open spec fn simple_escape(c: char) -> Option<char> {
    if c == 'n' {
        Some('\n')
    } else if c == 'r' {
        Some('\r')
    } else if c == 't' {
        Some('\t')
    } else if c == 'b' {
        Some('\u{08}')
    } else if c == 'f' {
        Some('\u{0C}')
    } else if c == '\\' {
        Some('\\')
    } else if c == '/' {
        Some('/')
    } else if c == '"' {
        Some('"')
    } else {
        None
    }
}

pub open spec fn hex_digit_value(c: char) -> nat {
    if '0' <= c <= '9' {
        ((c as u32) - 48) as nat
    } else if 'A' <= c <= 'F' {
        ((c as u32) - 55) as nat
    } else {
        ((c as u32) - 87) as nat
    }
}

/// The value of the hexadecimal digits `s[a..b]`.
pub open spec fn hex_digits_value(s: Seq<char>, a: int, b: int) -> nat
    decreases b - a,
{
    if b <= a {
        0
    } else {
        16 * hex_digits_value(s, a, b - 1) + hex_digit_value(s[b - 1])
    }
}

/// The end of the run of at most six hexadecimal digits that starts at
/// `a`, scanned from `j` on.
pub open spec fn hex_run_end(s: Seq<char>, a: int, j: int) -> int
    decreases s.len() - j,
{
    if 0 <= j < s.len() && j - a < 6 && is_hex(s[j]) {
        hex_run_end(s, a, j + 1)
    } else {
        j
    }
}

/// Whether `v` is a Unicode scalar value.
pub open spec fn is_scalar(v: nat) -> bool {
    v < 0xD800 || (0xDFFF < v && v <= 0x10FFFF)
}

/// The code and end of `{`, one to six hexadecimal digits, `}` at `i`,
/// when the digits name a Unicode scalar value.
pub open spec fn unicode_escape_end(s: Seq<char>, i: int) -> Option<(nat, int)> {
    if 0 <= i < s.len() && s[i] == '{' {
        let j = hex_run_end(s, i + 1, i + 1);
        if j > i + 1 && j < s.len() && s[j] == '}' && is_scalar(hex_digits_value(s, i + 1, j)) {
            Some((hex_digits_value(s, i + 1, j), j + 1))
        } else {
            None
        }
    } else {
        None
    }
}

/// The end of the run of spaces, tabs, carriage returns and line feeds.
pub open spec fn multispace_run_end(s: Seq<char>, j: int) -> int
    decreases s.len() - j,
{
    if 0 <= j < s.len() && (s[j] == ' ' || s[j] == '\t' || s[j] == '\r' || s[j] == '\n') {
        multispace_run_end(s, j + 1)
    } else {
        j
    }
}

/// The character whose code is `v`.
pub open spec fn char_of(v: u32) -> char {
    choose|c: char| #[trigger] (c as u32) == v
}

proof fn lemma_char_of(u: char)
    ensures
        char_of(u as u32) == u,
{
    let v = u as u32;
    assert(exists|c: char| #[trigger] (c as u32) == v) by {
        assert((u as u32) == v);
    }
    let c = char_of(v);
    assert(c as u32 == v);
}

pub open spec fn prepend(c: char, o: Option<(Seq<char>, int)>) -> Option<(Seq<char>, int)> {
    match o {
        Some((t, e)) => Some((seq![c] + t, e)),
        None => None,
    }
}

/// The text and end of the rest of a quoted string from `j`, after its
/// opening quote, up to and including its closing quote.
pub open spec fn quoted_rest(s: Seq<char>, j: int) -> Option<(Seq<char>, int)>
    decreases s.len() - j,
{
    if j < 0 || j >= s.len() {
        None
    } else if s[j] == '"' {
        Some((Seq::empty(), j + 1))
    } else if s[j] == '\\' {
        if j + 1 >= s.len() {
            None
        } else if simple_escape(s[j + 1]) is Some {
            prepend(simple_escape(s[j + 1])->0, quoted_rest(s, j + 2))
        } else if s[j + 1] == 'u' {
            match unicode_escape_end(s, j + 2) {
                Some((v, k)) => if j < k <= s.len() {
                    prepend(char_of(v as u32), quoted_rest(s, k))
                } else {
                    None
                },
                None => None,
            }
        } else {
            let k = multispace_run_end(s, j + 1);
            if j + 1 < k <= s.len() {
                quoted_rest(s, k)
            } else {
                None
            }
        }
    } else {
        prepend(s[j], quoted_rest(s, j + 1))
    }
}

/// The text and end of a quoted string at `i`.
pub open spec fn quoted_at(s: Seq<char>, i: int) -> Option<(Seq<char>, int)> {
    if 0 <= i < s.len() && s[i] == '"' {
        quoted_rest(s, i + 1)
    } else {
        None
    }
}

/// What the text so far and the rest of a quoted string make.
spec fn joined(out: Seq<char>, o: Option<(Seq<char>, int)>) -> Option<(Seq<char>, int)> {
    match o {
        Some((t, e)) => Some((out + t, e)),
        None => None,
    }
}

/// A quoted string at `i`: characters other than `"` and `\`, and escapes
/// `\n`, `\r`, `\t`, `\b`, `\f`, `\\`, `\/`, `\"`, `\u{...}` with one to six
/// hexadecimal digits, and a backslash before whitespace, which drops both.
pub fn escaped_string(s: &Vec<char>, i: usize) -> (r: Option<(String, usize)>)
    requires
        i <= s@.len(),
    ensures
        r is None <==> quoted_at(s@, i as int) is None,
        r matches Some((t, e)) ==> quoted_at(s@, i as int) == Some((t@, e as int)) && i < e
            <= s@.len(),
{
    if !(i < s.len() && s[i] == '"') {
        return None;
    }
    let mut out = String::new();
    let mut j = i + 1;
    assert(out@ + Seq::<char>::empty() =~= Seq::<char>::empty());
    loop
        invariant
            i < j <= s@.len(),
            s@[i as int] == '"',
            quoted_at(s@, i as int) == joined(out@, quoted_rest(s@, j as int)),
        decreases s@.len() - j,
    {
        let ghost o = out@;
        if j >= s.len() {
            return None;
        }
        let c = s[j];
        if c == '"' {
            assert(o + Seq::<char>::empty() =~= o);
            return Some((out, j + 1));
        } else if c == '\\' {
            if j + 1 >= s.len() {
                return None;
            }
            let d = s[j + 1];
            let esc: Option<char> = if d == 'n' {
                Some('\n')
            } else if d == 'r' {
                Some('\r')
            } else if d == 't' {
                Some('\t')
            } else if d == 'b' {
                Some('\u{08}')
            } else if d == 'f' {
                Some('\u{0C}')
            } else if d == '\\' {
                Some('\\')
            } else if d == '/' {
                Some('/')
            } else if d == '"' {
                Some('"')
            } else {
                None
            };
            assert(esc == simple_escape(d));
            match esc {
                Some(e) => {
                    push_char(&mut out, e);
                    proof {
                        lemma_join_step(o, e, quoted_rest(s@, j + 2));
                    }
                    j = j + 2;
                },
                None => {
                    if d == 'u' {
                        match unicode_escape(s, j + 2) {
                            Some((u, k)) => {
                                push_char(&mut out, u);
                                proof {
                                    lemma_char_of(u);
                                    lemma_join_step(o, u, quoted_rest(s@, k as int));
                                }
                                j = k;
                            },
                            None => return None,
                        }
                    } else {
                        let k = multispace_end(s, j + 1);
                        if k == j + 1 {
                            return None;
                        }
                        j = k;
                    }
                },
            }
        } else {
            push_char(&mut out, c);
            proof {
                lemma_join_step(o, c, quoted_rest(s@, j + 1));
            }
            j = j + 1;
        }
    }
}

proof fn lemma_join_step(o: Seq<char>, c: char, rest: Option<(Seq<char>, int)>)
    ensures
        joined(o, prepend(c, rest)) == joined(o.push(c), rest),
{
    if let Some((t, e)) = rest {
        assert(o + (seq![c] + t) =~= o.push(c) + t);
    }
}

/// The end of the run of spaces, tabs, carriage returns and line feeds.
fn multispace_end(s: &Vec<char>, i: usize) -> (r: usize)
    requires
        i <= s@.len(),
    ensures
        r == multispace_run_end(s@, i as int),
        i <= r <= s@.len(),
    decreases s@.len() - i,
{
    if i < s.len() && (s[i] == ' ' || s[i] == '\t' || s[i] == '\r' || s[i] == '\n') {
        multispace_end(s, i + 1)
    } else {
        i
    }
}

/// `{`, one to six hexadecimal digits naming a Unicode scalar value, `}`.
fn unicode_escape(s: &Vec<char>, i: usize) -> (r: Option<(char, usize)>)
    requires
        i <= s@.len(),
    ensures
        r is None <==> unicode_escape_end(s@, i as int) is None,
        r matches Some((c, e)) ==> unicode_escape_end(s@, i as int) == Some(
            (c as u32 as nat, e as int),
        ) && i < e <= s@.len(),
{
    if !(i < s.len() && s[i] == '{') {
        return None;
    }
    let mut j = i + 1;
    let mut v: u32 = 0;
    while j < s.len() && j - (i + 1) < 6 && is_hex_char(s[j])
        invariant
            i < j <= s@.len(),
            j - (i + 1) <= 6,
            v == hex_digits_value(s@, i + 1, j as int),
            v < pow16((j - (i + 1)) as nat),
            hex_run_end(s@, i + 1, i + 1) == hex_run_end(s@, i + 1, j as int),
        decreases s@.len() - j,
    {
        proof {
            lemma_pow16_step((j - (i + 1)) as nat);
        }
        let h = hex_value(s[j]);
        proof {
            assert(v * 16 + h < pow16((j - (i + 1)) as nat) * 16) by (nonlinear_arith)
                requires
                    v < pow16((j - (i + 1)) as nat),
                    h < 16,
            ;
        }
        v = 16 * v + h as u32;
        j = j + 1;
    }
    assert(hex_run_end(s@, i + 1, j as int) == j);
    if j == i + 1 || !(j < s.len() && s[j] == '}') {
        return None;
    }
    match char_from_u32(v) {
        Some(c) => Some((c, j + 1)),
        None => None,
    }
}

spec fn pow16(n: nat) -> nat
    decreases n,
{
    if n == 0 {
        1
    } else {
        16 * pow16((n - 1) as nat)
    }
}

proof fn lemma_pow16_step(n: nat)
    requires
        n < 6,
    ensures
        pow16(n + 1) == 16 * pow16(n),
        pow16(n + 1) <= 16777216,
    decreases n,
{
    reveal_with_fuel(pow16, 7);
}

/// A keyword at `i` followed by one whitespace character and the rest of
/// the line, verbatim.
fn rec_rest(line: &str, s: &Vec<char>, i: usize, kw: &str) -> (r: Option<String>)
    requires
        s@ == line@,
        i <= s@.len(),
    ensures
        r matches Some(t) ==> caseless_at(s@, i as int, kw@) && i + kw@.len() < s@.len() && is_ws(
            s@[i + kw@.len()],
        ) && t@ == s@.subrange(i + kw@.len() + 1, s@.len() as int),
        r is None ==> !rest_accepts(s@, i as int, kw@),
{
    let j = keyword(s, i, kw)?;
    let k = one_space(s, j)?;
    Some(slice_string(line, s, k, s.len()))
}

/// A keyword at `i`, one whitespace character, and then a quoted string
/// after optional whitespace, or else the rest of the line verbatim.
fn rec_quoted_or_rest(line: &str, s: &Vec<char>, i: usize, kw: &str) -> (r: Option<String>)
    requires
        s@ == line@,
        i <= s@.len(),
    ensures
        r matches Some(t) ==> quoted_form(s@, i as int, kw@, t@),
        r is None ==> !rest_accepts(s@, i as int, kw@),
{
    let j = keyword(s, i, kw)?;
    let k = one_space(s, j)?;
    Some(quoted_or_no_quote(line, s, k))
}

/// A quoted string after optional whitespace, or else the rest of the line
/// from `i` on, verbatim.
pub fn quoted_or_no_quote(line: &str, s: &Vec<char>, i: usize) -> (r: String)
    requires
        s@ == line@,
        i <= s@.len(),
    ensures
        r@ == quoted_or_rest_spec(s@, i as int),
{
    let q = space0(s, i);
    proof {
        lemma_space_end(s@, i as int, q as int);
    }
    match escaped_string(s, q) {
        Some((t, _)) => t,
        None => slice_string(line, s, i, s.len()),
    }
}

/// The text of a quoted string after optional whitespace at `i`, or else
/// the rest of the line from `i` on.
pub open spec fn quoted_or_rest_spec(s: Seq<char>, i: int) -> Seq<char> {
    match quoted_at(s, space_end_spec(s, i)) {
        Some((t, _)) => t,
        None => s.subrange(i, s.len() as int),
    }
}

/// The line from `i` on is `kw`, one whitespace character, and a value
/// that reads as `v`.
pub open spec fn quoted_form(s: Seq<char>, i: int, kw: Seq<char>, v: Seq<char>) -> bool {
    &&& caseless_at(s, i, kw)
    &&& i + kw.len() < s.len()
    &&& is_ws(s[i + kw.len()])
    &&& v == quoted_or_rest_spec(s, i + kw.len() + 1)
}

/// Where the value after `kw` and its whitespace begins.
pub open spec fn value_at(s: Seq<char>, i: int, kw: Seq<char>) -> int {
    space_end_spec(s, i + kw.len())
}

/// The channel `ch` is written at `j`.
pub open spec fn channel_is(s: Seq<char>, j: int, ch: Channel) -> bool {
    &&& channel_text_at(s, j)
    &&& ch.first() == digit_value(s[j] as u8)
    &&& ch.second() == digit_value(s[j + 1] as u8)
}

/// The decimal number `d` is written at `k`.
pub open spec fn decimal_is(s: Seq<char>, k: int, d: Seq<char>) -> bool {
    float_text_end(s, k) matches Some(e) && d == s.subrange(k, e)
}

/// `kw`, whitespace, and the integer `n`.
pub open spec fn int_kw(s: Seq<char>, i: int, kw: Seq<char>, n: int) -> bool {
    rest_accepts(s, i, kw) && n == int_value(s, value_at(s, i, kw))
}

/// `kw`, whitespace, and the unsigned integer `n`.
pub open spec fn uint_kw(s: Seq<char>, i: int, kw: Seq<char>, n: int) -> bool {
    rest_accepts(s, i, kw) && n == uint_value(s, value_at(s, i, kw))
}

/// `kw`, whitespace, and the decimal number `d`.
pub open spec fn float_kw(s: Seq<char>, i: int, kw: Seq<char>, d: Seq<char>) -> bool {
    rest_accepts(s, i, kw) && decimal_is(s, value_at(s, i, kw), d)
}

/// `kw`, the channel `ch`, whitespace, and the decimal number `d`.
pub open spec fn ch_float_kw(s: Seq<char>, i: int, kw: Seq<char>, ch: Channel, d: Seq<char>) -> bool {
    &&& caseless_at(s, i, kw)
    &&& channel_is(s, i + kw.len(), ch)
    &&& i + kw.len() + 2 < s.len()
    &&& is_ws(s[i + kw.len() + 2])
    &&& decimal_is(s, space_end_spec(s, i + kw.len() + 2), d)
}

/// `kw`, the channel `ch`, whitespace, and the rest `t` of the line.
pub open spec fn ch_rest_kw(s: Seq<char>, i: int, kw: Seq<char>, ch: Channel, t: Seq<char>) -> bool {
    &&& caseless_at(s, i, kw)
    &&& channel_is(s, i + kw.len(), ch)
    &&& i + kw.len() + 2 < s.len()
    &&& is_ws(s[i + kw.len() + 2])
    &&& t == s.subrange(space_end_spec(s, i + kw.len() + 2), s.len() as int)
}

/// `kw`, the channel `ch`, whitespace, and a quoted string reading `t`.
pub open spec fn ch_quoted_kw(s: Seq<char>, i: int, kw: Seq<char>, ch: Channel, t: Seq<char>) -> bool {
    &&& caseless_at(s, i, kw)
    &&& channel_is(s, i + kw.len(), ch)
    &&& i + kw.len() + 2 < s.len()
    &&& is_ws(s[i + kw.len() + 2])
    &&& quoted_at(s, space_end_spec(s, i + kw.len() + 2)) matches Some((q, _)) && t == q
}

/// A keyword at `i`, whitespace, and a signed integer.
fn rec_int(s: &Vec<char>, i: usize, kw: &str) -> (r: Option<i32>)
    requires
        i <= s@.len(),
    ensures
        r matches Some(v) ==> int_kw(s@, i as int, kw@, v as int),
        r is None ==> !(rest_accepts(s@, i as int, kw@) && int_accepts(
            s@,
            value_at(s@, i as int, kw@),
        )),
{
    let j = keyword(s, i, kw)?;
    let k = space1(s, j)?;
    proof {
        lemma_space_end(s@, j as int, k as int);
    }
    let (v, _) = dec_int(s, k)?;
    Some(v)
}

/// A keyword at `i`, whitespace, and an unsigned integer of at most `max`.
fn rec_uint(s: &Vec<char>, i: usize, kw: &str, max: u128) -> (r: Option<u128>)
    requires
        i <= s@.len(),
    ensures
        r matches Some(v) ==> caseless_at(s@, i as int, kw@) && v <= max && uint_kw(
            s@,
            i as int,
            kw@,
            v as int,
        ),
        r is None ==> !uint_kw_accepts(s@, i as int, kw@, max as nat),
{
    let j = keyword(s, i, kw)?;
    let k = space1(s, j)?;
    proof {
        lemma_space_end(s@, j as int, k as int);
    }
    let (v, _) = dec_uint(s, k, max)?;
    Some(v)
}

/// A keyword at `i`, whitespace, and a decimal number.
fn rec_float(line: &str, s: &Vec<char>, i: usize, kw: &str) -> (r: Option<Decimal>)
    requires
        s@ == line@,
        i <= s@.len(),
    ensures
        r matches Some(d) ==> float_kw(s@, i as int, kw@, d.text@),
        r is None ==> !float_accepts(s@, i as int, kw@),
{
    let j = keyword(s, i, kw)?;
    let (d, _) = spaced_float(line, s, j)?;
    Some(d)
}

/// A keyword at `i` directly followed by a channel, whitespace, and a
/// decimal number.
fn rec_ch_float(line: &str, s: &Vec<char>, i: usize, kw: &str) -> (r: Option<(Channel, Decimal)>)
    requires
        s@ == line@,
        i <= s@.len(),
    ensures
        r matches Some((ch, d)) ==> ch_float_kw(s@, i as int, kw@, ch, d.text@),
        r is None ==> !ch_float_accepts(s@, i as int, kw@),
{
    let j = keyword(s, i, kw)?;
    let (ch, k) = channel_at(s, j)?;
    let (d, _) = spaced_float(line, s, k)?;
    Some((ch, d))
}

/// A keyword at `i` directly followed by a channel, whitespace, and the
/// rest of the line.
fn rec_ch_rest(line: &str, s: &Vec<char>, i: usize, kw: &str) -> (r: Option<(Channel, String)>)
    requires
        s@ == line@,
        i <= s@.len(),
    ensures
        r matches Some((ch, t)) ==> ch_rest_kw(s@, i as int, kw@, ch, t@),
        r is None ==> !ch_rest_accepts(s@, i as int, kw@),
{
    let j = keyword(s, i, kw)?;
    let (ch, k) = channel_at(s, j)?;
    let m = space1(s, k)?;
    proof {
        lemma_space_end(s@, k as int, m as int);
    }
    Some((ch, slice_string(line, s, m, s.len())))
}

/// A keyword at `i` directly followed by a channel, whitespace, and a
/// quoted string.
fn rec_ch_quoted(s: &Vec<char>, i: usize, kw: &str) -> (r: Option<(Channel, String)>)
    requires
        i <= s@.len(),
    ensures
        r matches Some((ch, t)) ==> ch_quoted_kw(s@, i as int, kw@, ch, t@),
        r is None ==> !ch_quoted_accepts(s@, i as int, kw@),
{
    let j = keyword(s, i, kw)?;
    let (ch, k) = channel_at(s, j)?;
    let m = space1(s, k)?;
    proof {
        lemma_space_end(s@, k as int, m as int);
    }
    let (t, _) = escaped_string(s, m)?;
    Some((ch, t))
}

/// A keyword at `i` directly followed by a channel, with whitespace
/// before it when `spaced`.
fn rec_ch(s: &Vec<char>, i: usize, kw: &str, spaced: bool) -> (r: Option<Channel>)
    requires
        i <= s@.len(),
    ensures
        r matches Some(ch) ==> caseless_at(s@, i as int, kw@) && (if spaced {
            rest_accepts(s@, i as int, kw@) && channel_is(s@, value_at(s@, i as int, kw@), ch)
        } else {
            channel_is(s@, i + kw@.len(), ch)
        }),
        r is None ==> !(if spaced {
            rest_accepts(s@, i as int, kw@) && channel_text_at(s@, value_at(s@, i as int, kw@))
        } else {
            caseless_at(s@, i as int, kw@) && channel_text_at(s@, i + kw@.len())
        }),
{
    let j = keyword(s, i, kw)?;
    let k = if spaced {
        let k = space1(s, j)?;
        proof {
            lemma_space_end(s@, j as int, k as int);
        }
        k
    } else {
        j
    };
    let (ch, _) = channel_at(s, k)?;
    Some(ch)
}

/// Whitespace and then a channel.
fn spaced_channel(s: &Vec<char>, i: usize) -> (r: Option<(Channel, usize)>)
    requires
        i <= s@.len(),
    ensures
        r matches Some((c, e)) ==> i < e <= s@.len() && i < s@.len() && is_ws(s@[i as int])
            && channel_is(s@, space_end_spec(s@, i as int), c) && e == space_end_spec(s@, i as int)
            + 2,
        r is None <==> !(i < s@.len() && is_ws(s@[i as int]) && channel_text_at(
            s@,
            space_end_spec(s@, i as int),
        )),
{
    let j = space1(s, i)?;
    proof {
        lemma_space_end(s@, i as int, j as int);
    }
    channel_at(s, j)
}

/// Channels, each after optional whitespace, for as long as they come.
fn channel_list(s: &Vec<char>, i: usize) -> (r: Vec<Channel>)
    requires
        i <= s@.len(),
    ensures
        chan_view(r@) == chans_from(s@, i as int),
{
    let mut v: Vec<Channel> = Vec::new();
    let mut j = i;
    assert(chan_view(v@) + chans_from(s@, i as int) =~= chans_from(s@, i as int));
    loop
        invariant
            i <= j <= s@.len(),
            chans_from(s@, i as int) == chan_view(v@) + chans_from(s@, j as int),
        ensures
            chan_view(v@) == chans_from(s@, i as int),
        decreases s@.len() - j,
    {
        let k = space0(s, j);
        proof {
            lemma_space_end(s@, j as int, k as int);
        }
        match channel_at(s, k) {
            Some((ch, e)) => {
                let ghost v0 = v@;
                v.push(ch);
                proof {
                    assert(chan_view(v@) =~= chan_view(v0).push((ch.first(), ch.second())));
                    assert(chans_from(s@, j as int) == seq![(ch.first(), ch.second())] + chans_from(
                        s@,
                        e as int,
                    ));
                    assert(chan_view(v0) + (seq![(ch.first(), ch.second())] + chans_from(s@, e as int))
                        =~= chan_view(v@) + chans_from(s@, e as int));
                }
                j = e;
            },
            None => {
                proof {
                    assert(chans_from(s@, j as int) =~= Seq::<(nat, nat)>::empty());
                    assert(chan_view(v@) + Seq::<(nat, nat)>::empty() =~= chan_view(v@));
                }
                break;
            },
        }
    }
    v
}

/// Bytes in hexadecimal pairs, each after optional whitespace, for as long
/// as they come.
fn hex_list(s: &Vec<char>, i: usize) -> (r: Vec<u8>)
    requires
        i <= s@.len(),
    ensures
        byte_view(r@) == hex_from(s@, i as int),
{
    let mut v: Vec<u8> = Vec::new();
    let mut j = i;
    assert(byte_view(v@) + hex_from(s@, i as int) =~= hex_from(s@, i as int));
    loop
        invariant
            i <= j <= s@.len(),
            hex_from(s@, i as int) == byte_view(v@) + hex_from(s@, j as int),
        ensures
            byte_view(v@) == hex_from(s@, i as int),
        decreases s@.len() - j,
    {
        let k = space0(s, j);
        proof {
            lemma_space_end(s@, j as int, k as int);
        }
        match hex_byte(s, k) {
            Some((b, e)) => {
                let ghost v0 = v@;
                v.push(b);
                proof {
                    assert(byte_view(v@) =~= byte_view(v0).push(b as nat));
                    assert(hex_from(s@, j as int) == seq![b as nat] + hex_from(s@, e as int));
                    assert(byte_view(v0) + (seq![b as nat] + hex_from(s@, e as int)) =~= byte_view(v@)
                        + hex_from(s@, e as int));
                }
                j = e;
            },
            None => {
                proof {
                    assert(hex_from(s@, j as int) =~= Seq::<nat>::empty());
                    assert(byte_view(v@) + Seq::<nat>::empty() =~= byte_view(v@));
                }
                break;
            },
        }
    }
    v
}

/// The base-36 value of the channel at `i`.
fn base36_at(s: &Vec<char>, i: usize) -> (r: Option<(usize, usize)>)
    requires
        i <= s@.len(),
    ensures
        r matches Some((v, e)) ==> e == i + 2 && e <= s@.len() && v < 1296 && v == base36_at_spec(
            s@,
            i as int,
        ),
        r is None <==> !channel_text_at(s@, i as int),
{
    let (ch, e) = channel_at(s, i)?;
    Some((ch.to_base_36(), e))
}

/// The channels written from `p` on, each after optional whitespace, for
/// as long as they come, as pairs of digit values.
pub open spec fn chans_from(s: Seq<char>, p: int) -> Seq<(nat, nat)>
    decreases s.len() - p,
{
    if p < 0 || p > s.len() {
        Seq::empty()
    } else {
        let k = space_end_spec(s, p);
        if k >= p && channel_text_at(s, k) {
            seq![(digit_value(s[k] as u8), digit_value(s[k + 1] as u8))] + chans_from(s, k + 2)
        } else {
            Seq::empty()
        }
    }
}

/// The bytes written in hexadecimal pairs from `p` on, each after optional
/// whitespace, for as long as they come.
pub open spec fn hex_from(s: Seq<char>, p: int) -> Seq<nat>
    decreases s.len() - p,
{
    if p < 0 || p > s.len() {
        Seq::empty()
    } else {
        let k = space_end_spec(s, p);
        if k >= p && 0 <= k && k + 2 <= s.len() && is_hex(s[k]) && is_hex(s[k + 1]) {
            seq![16 * hex_digit_value(s[k]) + hex_digit_value(s[k + 1])] + hex_from(s, k + 2)
        } else {
            Seq::empty()
        }
    }
}

/// The digit pairs of channels.
pub open spec fn chan_view(cs: Seq<Channel>) -> Seq<(nat, nat)> {
    cs.map_values(|c: Channel| (c.first(), c.second()))
}

pub open spec fn byte_view(bs: Seq<u8>) -> Seq<nat> {
    bs.map_values(|b: u8| b as nat)
}

/// A main-data payload is what the text from `p` on says, for its family.
pub open spec fn payload_is(s: Seq<char>, p: int, v: MainDataValue) -> bool {
    match v {
        MainDataValue::Length(d) => decimal_is(s, p, d.text@),
        MainDataValue::Bpm(b) => {
            &&& b@.len() == hex_from(s, p).len()
            &&& forall|j: int|
                0 <= j < b@.len() ==> #[trigger] b@[j] == if hex_from(s, p)[j] == 0 {
                    None
                } else {
                    Some(hex_from(s, p)[j] as u8)
                }
        },
        MainDataValue::BgaAlpha(b) => byte_view(b@) == hex_from(s, p),
        MainDataValue::BgaLayerAlpha(b) => byte_view(b@) == hex_from(s, p),
        MainDataValue::BgaLayer2Alpha(b) => byte_view(b@) == hex_from(s, p),
        MainDataValue::BgaPoorAlpha(b) => byte_view(b@) == hex_from(s, p),
        MainDataValue::Landmine(_, vals) => {
            &&& vals@.len() == chans_from(s, p).len()
            &&& forall|j: int|
                0 <= j < vals@.len() ==> #[trigger] vals@[j] as nat == crate::channel::base36_of(
                    chans_from(s, p)[j].0,
                    chans_from(s, p)[j].1,
                )
        },
        MainDataValue::Other(_, t) => t@ == s.subrange(p, s.len() as int),
        MainDataValue::Bgm(c) => chan_view(c@) == chans_from(s, p),
        MainDataValue::Bga(c) => chan_view(c@) == chans_from(s, p),
        MainDataValue::BgaPoor(c) => chan_view(c@) == chans_from(s, p),
        MainDataValue::BgaLayer(c) => chan_view(c@) == chans_from(s, p),
        MainDataValue::ExBpm(c) => chan_view(c@) == chans_from(s, p),
        MainDataValue::Stop(c) => chan_view(c@) == chans_from(s, p),
        MainDataValue::BgaLayer2(c) => chan_view(c@) == chans_from(s, p),
        MainDataValue::ExRank(c) => chan_view(c@) == chans_from(s, p),
        MainDataValue::Note(_, c) => chan_view(c@) == chans_from(s, p),
        MainDataValue::InvisibleNote(_, c) => chan_view(c@) == chans_from(s, p),
        MainDataValue::LongNote(_, c) => chan_view(c@) == chans_from(s, p),
        MainDataValue::Text(c) => chan_view(c@) == chans_from(s, p),
        MainDataValue::BgaArgb(c) => chan_view(c@) == chans_from(s, p),
        MainDataValue::BgaLayerArgb(c) => chan_view(c@) == chans_from(s, p),
        MainDataValue::BgaLayer2Argb(c) => chan_view(c@) == chans_from(s, p),
        MainDataValue::BgaPoorArgb(c) => chan_view(c@) == chans_from(s, p),
        MainDataValue::SwitchBga(c) => chan_view(c@) == chans_from(s, p),
        MainDataValue::Option(c) => chan_view(c@) == chans_from(s, p),
        MainDataValue::Scroll(c) => chan_view(c@) == chans_from(s, p),
        MainDataValue::Speed(c) => chan_view(c@) == chans_from(s, p),
    }
}

/// Where the payload of a main-data line whose measure starts at `i`
/// begins: after the `:`.
pub open spec fn payload_start(s: Seq<char>, i: int) -> int {
    space_end_spec(s, i + 5) + 1
}

/// The text from `i` on has the form of a main-data line: three digits, a
/// channel, `:` after optional whitespace, and a decimal number right after
/// it for the measure-length channel.
pub open spec fn main_accepts(s: Seq<char>, i: int) -> bool {
    &&& 0 <= i
    &&& i + 5 <= s.len()
    &&& is_digit(s[i]) && is_digit(s[i + 1]) && is_digit(s[i + 2])
    &&& channel_text_at(s, i + 3)
    &&& space_end_spec(s, i + 5) < s.len()
    &&& s[space_end_spec(s, i + 5)] == ':'
    &&& base36_at_spec(s, i + 3) == 2 ==> float_text_end(s, payload_start(s, i)) is Some
}

/// The range of main-data channels by their base-36 value.
pub open spec fn in_range(k: usize, lo: usize, hi: usize) -> bool {
    lo <= k <= hi
}

/// The main-data channel families by the base-36 value `k` of their
/// channel: single channels for background music, length, tempo, images
/// and their layers, opacities, colours and scrolling, and ranges for the
/// note, invisible-note, long-note and landmine lanes, which keep their
/// channel value. Channels of no family are kept as they are.
pub open spec fn payload_fits(k: usize, v: MainDataValue) -> bool {
    match v {
        MainDataValue::Bgm(_) => k == 1,
        MainDataValue::Length(_) => k == 2,
        MainDataValue::Bpm(_) => k == 3,
        MainDataValue::Bga(_) => k == 4,
        MainDataValue::BgaPoor(_) => k == 6,
        MainDataValue::BgaLayer(_) => k == 7,
        MainDataValue::ExBpm(_) => k == 8,
        MainDataValue::BgaLayer2(_) => k == 10,
        MainDataValue::BgaAlpha(_) => k == 11,
        MainDataValue::BgaLayerAlpha(_) => k == 12,
        MainDataValue::BgaLayer2Alpha(_) => k == 13,
        MainDataValue::BgaPoorAlpha(_) => k == 14,
        MainDataValue::Note(c, _) => c == k && 37 <= k <= 107,
        MainDataValue::InvisibleNote(c, _) => c == k && 109 <= k <= 179,
        MainDataValue::LongNote(c, _) => c == k && 181 <= k <= 251,
        MainDataValue::Text(_) => k == 333,
        MainDataValue::BgaArgb(_) => k == 361,
        MainDataValue::BgaLayerArgb(_) => k == 362,
        MainDataValue::BgaLayer2Argb(_) => k == 363,
        MainDataValue::BgaPoorArgb(_) => k == 364,
        MainDataValue::SwitchBga(_) => k == 365,
        MainDataValue::Landmine(c, _) => c == k && 469 <= k <= 513,
        MainDataValue::Scroll(_) => k == 1020,
        MainDataValue::Speed(_) => k == 1033,
        MainDataValue::ExRank(_) | MainDataValue::Stop(_) | MainDataValue::Option(_) => false,
        MainDataValue::Other(c, _) => c == k && !(1 <= k <= 4 || 6 <= k <= 8 || 10 <= k <= 14 || 37
            <= k <= 107 || 109 <= k <= 179 || 181 <= k <= 251 || k == 333 || 361 <= k <= 365 || 469
            <= k <= 513 || k == 1020 || k == 1033),
    }
}

/// The base-36 value of the two characters at `i`.
pub open spec fn base36_at_spec(s: Seq<char>, i: int) -> nat {
    crate::channel::base36_of(digit_value(s[i] as u8), digit_value(s[i + 1] as u8))
}

/// A main-data line: a measure of three digits, a channel, `:` after
/// optional whitespace, and the payload of the channel's family.
fn main_data(line: &str, s: &Vec<char>, i: usize) -> (r: Option<Token>)
    requires
        s@ == line@,
        i <= s@.len(),
    ensures
        r matches Some(t) ==> sharp_sound(s@, i as int, t),
        r is Some ==> (i + 5 <= s@.len() && is_digit(s@[i as int]) && is_digit(s@[i + 1])
            && is_digit(s@[i + 2]) && (r matches Some(Token::Command(Command::MainData(m, v)))
            && m == digits_value(s@, i as int, i + 3) && payload_fits(
            base36_at_spec(s@, i + 3) as usize,
            v,
        ))),
        !(r matches Some(Token::Command(Command::Other(_, _)))),
        r is Some <==> main_accepts(s@, i as int),
        r matches Some(Token::Command(Command::MainData(_, v))) ==> payload_is(
            s@,
            payload_start(s@, i as int),
            v,
        ),
{
    if !(i < s.len() && s.len() - i >= 3 && is_digit_char(s[i]) && is_digit_char(s[i + 1])
        && is_digit_char(s[i + 2])) {
        return None;
    }
    proof {
        reveal_with_fuel(digits_value, 4);
        assert(digits_value(s@, i as int, i + 3) <= 999);
    }
    let measure = match digits_upto(s, i, i + 3, 999) {
        Some(v) => v as usize,
        None => return None,
    };
    let (ch, j) = base36_at(s, i + 3)?;
    let k = space0(s, j);
    proof {
        lemma_space_end(s@, j as int, k as int);
    }
    let p = literal(s, k, ':')?;
    let data = if ch == 1 {
        MainDataValue::Bgm(channel_list(s, p))
    } else if ch == 2 {
        let (d, _) = float_at(line, s, p)?;
        MainDataValue::Length(d)
    } else if ch == 3 {
        let bytes = hex_list(s, p);
        let mut v: Vec<Option<u8>> = Vec::new();
        let mut q: usize = 0;
        while q < bytes.len()
            invariant
                q <= bytes@.len(),
                v@.len() == q,
                forall|t: int|
                    0 <= t < q ==> #[trigger] v@[t] == if bytes@[t] == 0 {
                        None
                    } else {
                        Some(bytes@[t])
                    },
            decreases bytes@.len() - q,
        {
            v.push(if bytes[q] == 0 {
                None
            } else {
                Some(bytes[q])
            });
            q = q + 1;
        }
        proof {
            assert forall|t: int| 0 <= t < v@.len() implies #[trigger] v@[t] == if hex_from(
                s@,
                p as int,
            )[t] == 0 {
                None
            } else {
                Some(hex_from(s@, p as int)[t] as u8)
            } by {
                assert(byte_view(bytes@)[t] == bytes@[t] as nat);
            }
        }
        MainDataValue::Bpm(v)
    } else if ch == 4 {
        MainDataValue::Bga(channel_list(s, p))
    } else if ch == 6 {
        MainDataValue::BgaPoor(channel_list(s, p))
    } else if ch == 7 {
        MainDataValue::BgaLayer(channel_list(s, p))
    } else if ch == 8 {
        MainDataValue::ExBpm(channel_list(s, p))
    } else if ch == 10 {
        MainDataValue::BgaLayer2(channel_list(s, p))
    } else if ch == 11 {
        MainDataValue::BgaAlpha(hex_list(s, p))
    } else if ch == 12 {
        MainDataValue::BgaLayerAlpha(hex_list(s, p))
    } else if ch == 13 {
        MainDataValue::BgaLayer2Alpha(hex_list(s, p))
    } else if ch == 14 {
        MainDataValue::BgaPoorAlpha(hex_list(s, p))
    } else if in_range_exec(ch, 37, 107) {
        MainDataValue::Note(ch, channel_list(s, p))
    } else if in_range_exec(ch, 109, 179) {
        MainDataValue::InvisibleNote(ch, channel_list(s, p))
    } else if in_range_exec(ch, 181, 251) {
        MainDataValue::LongNote(ch, channel_list(s, p))
    } else if ch == 333 {
        MainDataValue::Text(channel_list(s, p))
    } else if ch == 361 {
        MainDataValue::BgaArgb(channel_list(s, p))
    } else if ch == 362 {
        MainDataValue::BgaLayerArgb(channel_list(s, p))
    } else if ch == 363 {
        MainDataValue::BgaLayer2Argb(channel_list(s, p))
    } else if ch == 364 {
        MainDataValue::BgaPoorArgb(channel_list(s, p))
    } else if ch == 365 {
        MainDataValue::SwitchBga(channel_list(s, p))
    } else if in_range_exec(ch, 469, 513) {
        let chs = channel_list(s, p);
        let mut v: Vec<usize> = Vec::new();
        let mut q: usize = 0;
        while q < chs.len()
            invariant
                q <= chs@.len(),
                v@.len() == q,
                forall|t: int|
                    0 <= t < q ==> #[trigger] v@[t] as nat == crate::channel::base36_of(
                        chs@[t].first(),
                        chs@[t].second(),
                    ),
            decreases chs@.len() - q,
        {
            v.push(chs[q].to_base_36());
            q = q + 1;
        }
        proof {
            assert forall|t: int| 0 <= t < v@.len() implies #[trigger] v@[t] as nat
                == crate::channel::base36_of(chans_from(s@, p as int)[t].0, chans_from(s@, p as int)[t].1) by {
                assert(chan_view(chs@)[t] == (chs@[t].first(), chs@[t].second()));
            }
        }
        MainDataValue::Landmine(ch, v)
    } else if ch == 1020 {
        MainDataValue::Scroll(channel_list(s, p))
    } else if ch == 1033 {
        MainDataValue::Speed(channel_list(s, p))
    } else {
        MainDataValue::Other(ch, slice_string(line, s, p, s.len()))
    };
    Some(Token::Command(Command::MainData(measure, data)))
}

fn in_range_exec(k: usize, lo: usize, hi: usize) -> (r: bool)
    ensures
        r == in_range(k, lo, hi),
{
    lo <= k && k <= hi
}

fn stp(line: &str, s: &Vec<char>, i: usize) -> (r: Option<Token>)
    requires
        s@ == line@,
        i <= s@.len(),
    ensures
        r matches Some(t) ==> sharp_sound(s@, i as int, t),
        !(r matches Some(Token::Command(Command::Other(_, _)))),
        r is None ==> !stp_accepts(s@, i as int),
{
    proof {
        reveal_strlit("STP");
    }
    let j0 = keyword(s, i, "STP")?;
    let j = space1(s, j0)?;
    proof {
        lemma_space_end(s@, j0 as int, j as int);
    }
    let (x, j) = padded_uint(s, j, usize::MAX as u128)?;
    let j = literal(s, j, '.')?;
    let (y, j) = padded_uint(s, j, u32::MAX as u128)?;
    if y >= 1000 {
        return None;
    }
    let (z, _) = spaced_float(line, s, j)?;
    Some(Token::Command(Command::Stp(x as usize, y as u32, z)))
}

/// The index of the first `:` from `k` on, or the end of the text.
pub open spec fn colon_at(s: Seq<char>, k: int) -> int
    decreases s.len() - k,
{
    if k < 0 || k >= s.len() || s[k] == ':' {
        k
    } else {
        colon_at(s, k + 1)
    }
}

proof fn lemma_colon_at(s: Seq<char>, i: int, e: int)
    requires
        0 <= i <= e <= s.len(),
        forall|j: int| i <= j < e ==> #[trigger] s[j] != ':',
        e == s.len() || s[e] == ':',
    ensures
        colon_at(s, i) == e,
    decreases e - i,
{
    if i < e {
        lemma_colon_at(s, i + 1, e);
    }
}

/// From `k` on: a name up to the first `:`, that `:`, and a value to the
/// end of the line.
pub open spec fn name_value_at(s: Seq<char>, k: int, name: Seq<char>, value: Seq<char>) -> bool {
    let c = colon_at(s, k);
    &&& c < s.len()
    &&& name == s.subrange(k, c)
    &&& value == s.subrange(c + 1, s.len() as int)
}

fn option(line: &str, s: &Vec<char>, i: usize) -> (r: Option<Token>)
    requires
        s@ == line@,
        i <= s@.len(),
    ensures
        r matches Some(t) ==> sharp_sound(s@, i as int, t),
        !(r matches Some(Token::Command(Command::Other(_, _)))),
        r is None ==> !option_accepts(s@, i as int),
{
    let j0 = keyword(s, i, "OPTION")?;
    let j = space1(s, j0)?;
    proof {
        lemma_space_end(s@, j0 as int, j as int);
    }
    let k = until_char(s, j, ':');
    proof {
        lemma_colon_at(s@, j as int, k as int);
    }
    let m = literal(s, k, ':')?;
    Some(
        Token::Command(
            Command::Option(slice_string(line, s, j, k), slice_string(line, s, m, s.len())),
        ),
    )
}

fn change_option(line: &str, s: &Vec<char>, i: usize) -> (r: Option<Token>)
    requires
        s@ == line@,
        i <= s@.len(),
    ensures
        r matches Some(t) ==> sharp_sound(s@, i as int, t),
        !(r matches Some(Token::Command(Command::Other(_, _)))),
        r is None ==> !change_option_accepts(s@, i as int),
{
    proof {
        reveal_strlit("CHANGEOPTION");
    }
    let j0 = keyword(s, i, "CHANGEOPTION")?;
    let (ch, j1) = channel_at(s, j0)?;
    let j = space1(s, j1)?;
    proof {
        lemma_space_end(s@, j1 as int, j as int);
    }
    let k = until_char(s, j, ':');
    proof {
        lemma_colon_at(s@, j as int, k as int);
    }
    let m = literal(s, k, ':')?;
    Some(
        Token::Command(
            Command::ChangeOption(
                ch,
                slice_string(line, s, j, k),
                slice_string(line, s, m, s.len()),
            ),
        ),
    )
}

fn wav_command(line: &str, s: &Vec<char>, i: usize) -> (r: Option<Token>)
    requires
        s@ == line@,
        i <= s@.len(),
    ensures
        r matches Some(t) ==> sharp_sound(s@, i as int, t),
        !(r matches Some(Token::Command(Command::Other(_, _)))),
        r is None ==> !wav_command_accepts(s@, i as int),
{
    proof {
        reveal_strlit("WAVCMD");
    }
    let j0 = keyword(s, i, "WAVCMD")?;
    let j = space1(s, j0)?;
    proof {
        lemma_space_end(s@, j0 as int, j as int);
    }
    let (id, j) = padded_uint(s, j, 2147483647)?;
    if id > 2 {
        return None;
    }
    let (ch, j) = spaced_channel(s, j)?;
    let (v, _) = spaced_float(line, s, j)?;
    proof {
        reveal_with_fuel(float_texts, 2);
        assert(seq![v.text@] =~= float_texts(s@, j as int, 1));
    }
    Some(Token::Command(Command::WavCommand(id as i32, ch, v)))
}

/// The end of the run of ASCII letters and digits from `j` on.
pub open spec fn alnum_run_end(s: Seq<char>, j: int) -> int
    decreases s.len() - j,
{
    if j < 0 || j >= s.len() || !is_alnum(s[j]) {
        j
    } else {
        alnum_run_end(s, j + 1)
    }
}

proof fn lemma_alnum_run_end(s: Seq<char>, i: int, e: int)
    requires
        0 <= i <= e <= s.len(),
        forall|j: int| i <= j < e ==> is_alnum(#[trigger] s[j]),
        e == s.len() || !is_alnum(s[e]),
    ensures
        alnum_run_end(s, i) == e,
    decreases e - i,
{
    if i < e {
        lemma_alnum_run_end(s, i + 1, e);
    }
}

/// The option letter `c` of an extended sound takes the number `d`: `p`
/// for a pitch from -10000 to 1000, `v` for a volume from -10000 to 0, `f`
/// for a frequency from 100 to 10000, in either case.
pub open spec fn ex_wav_option_ok(c: char, d: Seq<char>) -> bool {
    if c == 'p' || c == 'P' {
        within(d, -10000, 1000)
    } else if c == 'v' || c == 'V' {
        within(d, -10000, 0)
    } else if c == 'f' || c == 'F' {
        within(d, 100, 10000)
    } else {
        false
    }
}

/// Where the numbers of the option letters `s[t..k]` end, read from `pos`
/// on, each after whitespace and in the range of its letter.
pub open spec fn ex_wav_numbers_end(s: Seq<char>, t: int, k: int, pos: int) -> Option<int>
    decreases k - t,
{
    if t >= k {
        Some(pos)
    } else {
        match spaced_float_end(s, pos) {
            Some(e) => if ex_wav_option_ok(s[t], s.subrange(space_end_spec(s, pos), e)) {
                ex_wav_numbers_end(s, t + 1, k, e)
            } else {
                None
            },
            None => None,
        }
    }
}

/// The text from `i` on has the form of an extended sound: `EXWAV`, a
/// channel, whitespace, option letters, a number in range for each, and
/// whitespace before the file name.
pub open spec fn ex_wav_accepts(s: Seq<char>, i: int) -> bool {
    let j = space_end_spec(s, i + 7);
    let k = alnum_run_end(s, j);
    &&& caseless_at(s, i, "EXWAV"@)
    &&& channel_text_at(s, i + 5)
    &&& i + 7 < s.len()
    &&& is_ws(s[i + 7])
    &&& k > j
    &&& ex_wav_numbers_end(s, j, k, k) matches Some(p) && 0 <= p < s.len() && is_ws(s[p])
}

/// Which option of an extended sound a letter sets: 0 for the pitch, 1 for
/// the volume, 2 for the frequency.
pub open spec fn ex_wav_slot(c: char) -> int {
    if c == 'p' || c == 'P' {
        0
    } else if c == 'v' || c == 'V' {
        1
    } else {
        2
    }
}

/// The texts of the options once the letters `s[t..k]` have each taken the
/// number after `pos`, starting from `acc`; a later letter for the same
/// option replaces the earlier text.
pub open spec fn ex_wav_texts(
    s: Seq<char>,
    t: int,
    k: int,
    pos: int,
    acc: Seq<Option<Seq<char>>>,
) -> Seq<Option<Seq<char>>>
    decreases k - t,
{
    if t >= k {
        acc
    } else {
        match spaced_float_end(s, pos) {
            Some(e) => ex_wav_texts(
                s,
                t + 1,
                k,
                e,
                acc.update(ex_wav_slot(s[t]), Some(s.subrange(space_end_spec(s, pos), e))),
            ),
            None => acc,
        }
    }
}

/// The texts of the options that are set.
pub open spec fn opt_texts(o: Seq<Option<Decimal>>) -> Seq<Option<Seq<char>>> {
    o.map_values(
        |x: Option<Decimal>|
            match x {
                Some(d) => Some(d.text@),
                None => None,
            },
    )
}

/// The fields of an extended sound read from the text at `i`: the channel,
/// the options that its letters set with the text of their numbers, and
/// the file name after the whitespace that follows the numbers.
pub open spec fn ex_wav_fields(
    s: Seq<char>,
    i: int,
    ch: Channel,
    o: Seq<Option<Decimal>>,
    name: Seq<char>,
) -> bool {
    let j = space_end_spec(s, i + 7);
    let k = alnum_run_end(s, j);
    let p = ex_wav_numbers_end(s, j, k, k)->0;
    &&& channel_is(s, i + 5, ch)
    &&& name == s.subrange(space_end_spec(s, p), s.len() as int)
    &&& opt_texts(o) == ex_wav_texts(s, j, k, k, seq![None, None, None])
}

fn ex_wav(line: &str, s: &Vec<char>, i: usize) -> (r: Option<Token>)
    requires
        s@ == line@,
        i <= s@.len(),
    ensures
        r matches Some(t) ==> sharp_sound(s@, i as int, t),
        !(r matches Some(Token::Command(Command::Other(_, _)))),
        r is Some <==> ex_wav_accepts(s@, i as int),
        r matches Some(Token::Command(Command::ExWav(ch, o, name))) ==> ex_wav_fields(
            s@,
            i as int,
            ch,
            o@,
            name@,
        ),
{
    proof {
        reveal_strlit("EXWAV");
    }
    let j = keyword(s, i, "EXWAV")?;
    let (ch, j) = channel_at(s, j)?;
    let j7 = j;
    assert(channel_is(s@, i + 5, ch));
    let j = space1(s, j)?;
    proof {
        lemma_space_end(s@, j7 as int, j as int);
    }
    let mut k = j;
    while k < s.len() && is_alnum_char(s[k])
        invariant
            j <= k <= s@.len(),
            forall|q: int| j <= q < k ==> is_alnum(#[trigger] s@[q]),
        decreases s@.len() - k,
    {
        k = k + 1;
    }
    proof {
        lemma_alnum_run_end(s@, j as int, k as int);
    }
    if k == j {
        return None;
    }
    let mut pitch: Option<Decimal> = None;
    let mut volume: Option<Decimal> = None;
    let mut frequency: Option<Decimal> = None;
    let mut pos = k;
    let mut t = j;
    let ghost init: Seq<Option<Seq<char>>> = seq![None, None, None];
    assert(opt_texts([pitch, volume, frequency]@) =~= init);
    while t < k
        invariant
            s@ == line@,
            j <= t <= k,
            k <= s@.len(),
            k <= pos <= s@.len(),
            pitch matches Some(p) ==> within(p.text@, -10000, 1000),
            volume matches Some(v) ==> within(v.text@, -10000, 0),
            frequency matches Some(f) ==> within(f.text@, 100, 10000),
            j as int == space_end_spec(s@, i + 7),
            k as int == alnum_run_end(s@, j as int),
            caseless_at(s@, i as int, "EXWAV"@),
            channel_text_at(s@, i + 5),
            i + 7 < s@.len(),
            is_ws(s@[i + 7]),
            k > j,
            channel_is(s@, i + 5, ch),
            ex_wav_texts(s@, j as int, k as int, k as int, init) == ex_wav_texts(
                s@,
                t as int,
                k as int,
                pos as int,
                opt_texts([pitch, volume, frequency]@),
            ),
            ex_wav_numbers_end(s@, j as int, k as int, k as int) == ex_wav_numbers_end(
                s@,
                t as int,
                k as int,
                pos as int,
            ),
        decreases k - t,
    {
        let c = s[t];
        let ghost before = opt_texts([pitch, volume, frequency]@);
        let (d, e) = match spaced_float(line, s, pos) {
            Some(x) => x,
            None => {
                assert(spaced_float_end(s@, pos as int) is None);
                return None;
            },
        };
        let ok = if c == 'p' || c == 'P' {
            let ok = crate::decimal::decimal_within(&d.text, -10000, 1000);
            pitch = Some(d);
            ok
        } else if c == 'v' || c == 'V' {
            let ok = crate::decimal::decimal_within(&d.text, -10000, 0);
            volume = Some(d);
            ok
        } else if c == 'f' || c == 'F' {
            let ok = crate::decimal::decimal_within(&d.text, 100, 10000);
            frequency = Some(d);
            ok
        } else {
            false
        };
        assert(ok == ex_wav_option_ok(s@[t as int], d.text@));
        assert(d.text@ == s@.subrange(space_end_spec(s@, pos as int), e as int));
        if !ok {
            assert(ex_wav_numbers_end(s@, t as int, k as int, pos as int) is None);
            return None;
        }
        proof {
            assert(opt_texts([pitch, volume, frequency]@) =~= before.update(
                ex_wav_slot(c),
                Some(s@.subrange(space_end_spec(s@, pos as int), e as int)),
            ));
        }
        pos = e;
        t = t + 1;
    }
    assert(ex_wav_numbers_end(s@, t as int, k as int, pos as int) == Some(pos as int));
    let m = space1(s, pos)?;
    proof {
        lemma_space_end(s@, pos as int, m as int);
    }
    let name = slice_string(line, s, m, s.len());
    let opts = [pitch, volume, frequency];
    assert(ex_wav_in_range(opts@));
    Some(Token::Command(Command::ExWav(ch, opts, name)))
}

fn ex_bmp(line: &str, s: &Vec<char>, i: usize) -> (r: Option<Token>)
    requires
        s@ == line@,
        i <= s@.len(),
    ensures
        r matches Some(t) ==> sharp_sound(s@, i as int, t),
        !(r matches Some(Token::Command(Command::Other(_, _)))),
        r is None ==> !ex_bmp_accepts(s@, i as int),
{
    proof {
        reveal_strlit("EXBMP");
    }
    let j = keyword(s, i, "EXBMP")?;
    let (ch, j1) = channel_at(s, j)?;
    let j = space1(s, j1)?;
    proof {
        lemma_space_end(s@, j1 as int, j as int);
    }
    let (q, j) = byte_quad(s, j)?;
    let j = one_space(s, j)?;
    Some(Token::Command(Command::ExBmp(ch, q, slice_string(line, s, j, s.len()))))
}

/// Six decimal numbers, each after whitespace, as three pairs.
/// The texts of `n` decimal numbers, each after whitespace, from `j` on.
pub open spec fn float_texts(s: Seq<char>, j: int, n: nat) -> Seq<Seq<char>>
    decreases n,
{
    if n == 0 {
        Seq::empty()
    } else {
        match spaced_float_end(s, j) {
            Some(e) => seq![s.subrange(space_end_spec(s, j), e)] + float_texts(
                s,
                e,
                (n - 1) as nat,
            ),
            None => Seq::empty(),
        }
    }
}

/// The texts of three pairs of numbers, in order.
pub open spec fn pairs3_texts(p: [[Decimal; 2]; 3]) -> Seq<Seq<char>> {
    seq![
        p@[0]@[0].text@,
        p@[0]@[1].text@,
        p@[1]@[0].text@,
        p@[1]@[1].text@,
        p@[2]@[0].text@,
        p@[2]@[1].text@,
    ]
}

/// The texts of two pairs of numbers, in order.
pub open spec fn pairs2_texts(p: [[Decimal; 2]; 2]) -> Seq<Seq<char>> {
    seq![p@[0]@[0].text@, p@[0]@[1].text@, p@[1]@[0].text@, p@[1]@[1].text@]
}

pub open spec fn pair_texts(p: [Decimal; 2]) -> Seq<Seq<char>> {
    seq![p@[0].text@, p@[1].text@]
}

fn six_floats(line: &str, s: &Vec<char>, i: usize) -> (r: Option<[[Decimal; 2]; 3]>)
    requires
        s@ == line@,
        i <= s@.len(),
    ensures
        r matches Some(p) ==> pairs3_texts(p) == float_texts(s@, i as int, 6),
        r is None <==> floats_end(s@, i as int, 6) is None,
{
    proof {
        reveal_with_fuel(float_texts, 7);
        reveal_with_fuel(floats_end, 7);
    }
    let (a, j) = spaced_float(line, s, i)?;
    let (b, j) = spaced_float(line, s, j)?;
    let (c, j) = spaced_float(line, s, j)?;
    let (d, j) = spaced_float(line, s, j)?;
    let (e, j) = spaced_float(line, s, j)?;
    let (f, _) = spaced_float(line, s, j)?;
    let r = [[a, b], [c, d], [e, f]];
    assert(pairs3_texts(r) =~= float_texts(s@, i as int, 6));
    Some(r)
}

fn bga(line: &str, s: &Vec<char>, i: usize, kw: &str) -> (r: Option<(Channel, Channel, [[Decimal; 2]; 3])>)
    requires
        s@ == line@,
        i <= s@.len(),
    ensures
        r matches Some((ch, bmp, _)) ==> caseless_at(s@, i as int, kw@) && channel_is(
            s@,
            i + kw@.len(),
            ch,
        ) && i + kw@.len() + 2 < s@.len() && is_ws(s@[i + kw@.len() + 2]) && channel_is(
            s@,
            space_end_spec(s@, i + kw@.len() + 2),
            bmp,
        ),
        r matches Some((_, _, p)) ==> pairs3_texts(p) == float_texts(
            s@,
            space_end_spec(s@, i + kw@.len() + 2) + 2,
            6,
        ),
        r is None ==> !bga_accepts(s@, i as int, kw@),
{
    let j = keyword(s, i, kw)?;
    let (ch, j) = channel_at(s, j)?;
    let (bmp, j) = spaced_channel(s, j)?;
    let p = six_floats(line, s, j)?;
    Some((ch, bmp, p))
}

/// The channels written one right after the other from `p` on.
pub open spec fn chan_run(s: Seq<char>, p: int) -> Seq<(nat, nat)>
    decreases s.len() - p,
{
    if p >= 0 && channel_text_at(s, p) {
        seq![(digit_value(s[p] as u8), digit_value(s[p + 1] as u8))] + chan_run(s, p + 2)
    } else {
        Seq::empty()
    }
}

/// The fields of a key-triggered image read from the text at `i`.
pub open spec fn switch_bga_fields(
    s: Seq<char>,
    i: int,
    ch: Channel,
    frame: Seq<char>,
    time: Seq<char>,
    key: Channel,
    looped: bool,
    argb: Seq<u8>,
    pattern: Seq<Channel>,
) -> bool {
    let e1 = spaced_float_end(s, i + 7)->0;
    let k1 = sep_end(s, e1, ':')->0;
    let e2 = float_text_end(s, k1)->0;
    let k2 = sep_end(s, e2, ':')->0;
    let k3 = sep_end(s, k2 + 2, ':')->0;
    let k4 = sep_end(s, uint_end(s, k3), ':')->0;
    let e5 = quad_end(s, k4)->0;
    &&& channel_is(s, i + 5, ch)
    &&& seq![frame] == float_texts(s, i + 7, 1)
    &&& time == s.subrange(k1, e2)
    &&& channel_is(s, k2, key)
    &&& looped == (uint_value(s, k3) != 0)
    &&& quad_values(s, k4, argb)
    &&& chan_view(pattern) == chan_run(s, space_end_spec(s, e5))
}

fn switch_bga(line: &str, s: &Vec<char>, i: usize) -> (r: Option<Token>)
    requires
        s@ == line@,
        i <= s@.len(),
    ensures
        r matches Some(t) ==> sharp_sound(s@, i as int, t),
        !(r matches Some(Token::Command(Command::Other(_, _)))),
        r is Some <==> switch_bga_accepts(s@, i as int),
        r matches Some(Token::Command(Command::SwitchBga(ch, f, t, key, lp, q, pat)))
            ==> switch_bga_fields(s@, i as int, ch, f.text@, t.text@, key, lp, q@, pat@),
{
    proof {
        reveal_strlit("SWBGA");
    }
    let j = keyword(s, i, "SWBGA")?;
    let (ch, j) = channel_at(s, j)?;
    let (frame, j) = spaced_float(line, s, j)?;
    proof {
        reveal_with_fuel(float_texts, 2);
        assert(seq![frame.text@] =~= float_texts(s@, i + 7, 1));
    }
    let j = separator(s, j, ':')?;
    let (time, j) = float_at(line, s, j)?;
    let j = separator(s, j, ':')?;
    let (key, j) = channel_at(s, j)?;
    let j = separator(s, j, ':')?;
    let (looped, j) = dec_uint(s, j, u32::MAX as u128)?;
    let j = separator(s, j, ':')?;
    let (argb, j) = byte_quad(s, j)?;
    let j5 = j;
    let j = space1(s, j)?;
    proof {
        lemma_space_end(s@, j5 as int, j as int);
    }
    let mut pattern: Vec<Channel> = Vec::new();
    let mut k = j;
    assert(chan_view(pattern@) + chan_run(s@, k as int) =~= chan_run(s@, k as int));
    loop
        invariant
            j <= k <= s@.len(),
            pattern@.len() == 0 ==> k == j,
            pattern@.len() > 0 ==> channel_text_at(s@, j as int),
            chan_run(s@, j as int) == chan_view(pattern@) + chan_run(s@, k as int),
        ensures
            chan_view(pattern@) == chan_run(s@, j as int),
            pattern@.len() == 0 <==> !channel_text_at(s@, j as int),
        decreases s@.len() - k,
    {
        match channel_at(s, k) {
            Some((c, e)) => {
                let ghost p0 = pattern@;
                pattern.push(c);
                proof {
                    assert(chan_view(pattern@) =~= chan_view(p0).push((c.first(), c.second())));
                    assert(chan_view(p0) + (seq![(c.first(), c.second())] + chan_run(s@, e as int))
                        =~= chan_view(pattern@) + chan_run(s@, e as int));
                }
                k = e;
            },
            None => {
                proof {
                    assert(chan_run(s@, k as int) =~= Seq::<(nat, nat)>::empty());
                    assert(chan_view(pattern@) + Seq::<(nat, nat)>::empty() =~= chan_view(pattern@));
                }
                break;
            },
        }
    }
    if pattern.len() == 0 {
        return None;
    }
    Some(Token::Command(Command::SwitchBga(ch, frame, time, key, looped != 0, argb, pattern)))
}

fn argb(s: &Vec<char>, i: usize) -> (r: Option<Token>)
    requires
        i <= s@.len(),
    ensures
        r matches Some(t) ==> sharp_sound(s@, i as int, t),
        !(r matches Some(Token::Command(Command::Other(_, _)))),
        r is None ==> !argb_accepts(s@, i as int),
{
    proof {
        reveal_strlit("ARGB");
    }
    let j = keyword(s, i, "ARGB")?;
    let (ch, j1) = channel_at(s, j)?;
    let j = space1(s, j1)?;
    proof {
        lemma_space_end(s@, j1 as int, j as int);
    }
    let (q, _) = byte_quad(s, j)?;
    Some(Token::Command(Command::Argb(ch, q)))
}

/// Two decimal numbers, each after whitespace.
fn float_pair(line: &str, s: &Vec<char>, i: usize) -> (r: Option<(Decimal, Decimal, usize)>)
    requires
        s@ == line@,
        i <= s@.len(),
    ensures
        r matches Some((_, _, e)) ==> i < e <= s@.len() && floats_end(s@, i as int, 2) == Some(
            e as int,
        ),
        r is None <==> floats_end(s@, i as int, 2) is None,
        r matches Some((a, b, _)) ==> seq![a.text@, b.text@] == float_texts(s@, i as int, 2),
{
    proof {
        reveal_with_fuel(floats_end, 3);
        reveal_with_fuel(float_texts, 3);
    }
    let (a, j) = match spaced_float(line, s, i) {
        Some(x) => x,
        None => return None,
    };
    let (b, j2) = match spaced_float(line, s, j) {
        Some(x) => x,
        None => return None,
    };
    assert(seq![a.text@, b.text@] =~= float_texts(s@, i as int, 2));
    Some((a, b, j2))
}

fn ex_character(line: &str, s: &Vec<char>, i: usize) -> (r: Option<Token>)
    requires
        s@ == line@,
        i <= s@.len(),
    ensures
        r matches Some(t) ==> sharp_sound(s@, i as int, t),
        !(r matches Some(Token::Command(Command::Other(_, _)))),
        r is Some <==> ex_character_accepts(s@, i as int),
        r matches Some(Token::Command(Command::ExCharacter(sn, b, tr, off, ab))) ==> ex_character_is(
            s@,
            i as int,
            sn,
            b,
            off is Some,
            ab is Some,
        ) && ex_character_texts(s@, i as int, tr, off, ab),
{
    proof {
        reveal_strlit("ExtChr");
    }
    let j0 = match keyword(s, i, "ExtChr") {
        Some(j) => j,
        None => return None,
    };
    let k1 = match space1(s, j0) {
        Some(k) => k,
        None => return None,
    };
    proof {
        lemma_space_end(s@, j0 as int, k1 as int);
    }
    let (sprite, e1) = match dec_uint(s, k1, u32::MAX as u128) {
        Some(x) => x,
        None => return None,
    };
    if sprite >= 1024 {
        return None;
    }
    let k2 = match space1(s, e1) {
        Some(k) => k,
        None => return None,
    };
    proof {
        lemma_space_end(s@, e1 as int, k2 as int);
    }
    let (bmp, e2) = match dec_uint(s, k2, usize::MAX as u128) {
        Some(x) => x,
        None => return None,
    };
    if bmp >= 256 {
        return None;
    }
    proof {
        lemma_floats_split(s@, e2 as int, 2, 2);
    }
    let (a0, a1, j) = match float_pair(line, s, e2) {
        Some(x) => x,
        None => return None,
    };
    let (b0, b1, e4) = match float_pair(line, s, j) {
        Some(x) => x,
        None => return None,
    };
    proof {
        lemma_float_texts_split(s@, e2 as int, 2, 2);
        assert(pairs2_texts([[a0, a1], [b0, b1]]) =~= seq![a0.text@, a1.text@] + seq![
            b0.text@,
            b1.text@,
        ]);
    }
    proof {
        lemma_floats_split(s@, e4 as int, 2, 2);
    }
    let (offset, j) = match float_pair(line, s, e4) {
        Some((p, q, e)) => (Some([p, q]), e),
        None => (None, e4),
    };
    let abs = match float_pair(line, s, j) {
        Some((p, q, _)) => Some([p, q]),
        None => None,
    };
    Some(
        Token::Command(
            Command::ExCharacter(sprite as u32, bmp as usize, [[a0, a1], [b0, b1]], offset, abs),
        ),
    )
}


/// The text from `i` on has the form of an extended character: `ExtChr`,
/// a sprite number below 1024, an image number below 256, and four
/// decimal numbers, each after whitespace.
pub open spec fn ex_character_accepts(s: Seq<char>, i: int) -> bool {
    let k1 = value_at(s, i, "ExtChr"@);
    let e1 = uint_end(s, k1);
    let k2 = space_end_spec(s, e1);
    &&& rest_accepts(s, i, "ExtChr"@)
    &&& uint_accepts(s, k1, u32::MAX as nat)
    &&& uint_value(s, k1) < 1024
    &&& 0 <= e1 < s.len()
    &&& is_ws(s[e1])
    &&& uint_accepts(s, k2, usize::MAX as nat)
    &&& uint_value(s, k2) < 256
    &&& floats_end(s, uint_end(s, k2), 4) is Some
}

proof fn lemma_float_texts_split(s: Seq<char>, j: int, a: nat, b: nat)
    requires
        floats_end(s, j, a) is Some,
    ensures
        float_texts(s, j, a + b) == float_texts(s, j, a) + float_texts(s, floats_end(s, j, a)->0, b),
    decreases a,
{
    if a == 0 {
        assert(Seq::<Seq<char>>::empty() + float_texts(s, j, b) =~= float_texts(s, j, b));
    } else {
        let e = spaced_float_end(s, j)->0;
        lemma_float_texts_split(s, e, (a - 1) as nat, b);
        assert((a + b - 1) as nat == ((a - 1) as nat + b));
        let h = seq![s.subrange(space_end_spec(s, j), e)];
        assert(h + (float_texts(s, e, (a - 1) as nat) + float_texts(s, floats_end(s, e, (a - 1) as nat)->0, b))
            =~= (h + float_texts(s, e, (a - 1) as nat)) + float_texts(s, floats_end(s, e, (a - 1) as nat)->0, b));
    }
}

/// The numbers of an extended character read from the text at `i`: the
/// cut-out, and the offset and absolute position where they are present.
pub open spec fn ex_character_texts(
    s: Seq<char>,
    i: int,
    tr: [[Decimal; 2]; 2],
    off: Option<[Decimal; 2]>,
    ab: Option<[Decimal; 2]>,
) -> bool {
    let k1 = value_at(s, i, "ExtChr"@);
    let k2 = space_end_spec(s, uint_end(s, k1));
    let c0 = uint_end(s, k2);
    let e4 = floats_end(s, c0, 4)->0;
    let after = if off is Some {
        floats_end(s, e4, 2)->0
    } else {
        e4
    };
    &&& pairs2_texts(tr) == float_texts(s, c0, 4)
    &&& (off matches Some(o) ==> pair_texts(o) == float_texts(s, e4, 2))
    &&& (ab matches Some(a) ==> pair_texts(a) == float_texts(s, after, 2))
}

/// The numbers of an extended character read from the text at `i`; the
/// offset is there when two more numbers follow the four of the cut-out,
/// and the absolute position when two more follow those.
pub open spec fn ex_character_is(
    s: Seq<char>,
    i: int,
    sprite: u32,
    bmp: usize,
    has_offset: bool,
    has_abs: bool,
) -> bool {
    let k1 = value_at(s, i, "ExtChr"@);
    let k2 = space_end_spec(s, uint_end(s, k1));
    let e4 = floats_end(s, uint_end(s, k2), 4)->0;
    &&& sprite == uint_value(s, k1)
    &&& bmp == uint_value(s, k2)
    &&& has_offset == floats_end(s, e4, 2) is Some
    &&& has_abs == if has_offset {
        floats_end(s, e4, 4) is Some
    } else {
        floats_end(s, e4, 2) is Some
    }
}

proof fn lemma_floats_split(s: Seq<char>, j: int, a: nat, b: nat)
    ensures
        floats_end(s, j, a + b) == match floats_end(s, j, a) {
            Some(e) => floats_end(s, e, b),
            None => None,
        },
    decreases a,
{
    if a > 0 {
        match spaced_float_end(s, j) {
            Some(e) => {
                lemma_floats_split(s, e, (a - 1) as nat, b);
                assert((a + b - 1) as nat == ((a - 1) as nat + b));
            },
            None => {},
        }
    }
}

/// A command that no recognizer took: the word after the sigil and the
/// rest of the line after the whitespace that follows it.
fn other(line: &str, s: &Vec<char>, i: usize) -> (r: Token)
    requires
        s@ == line@,
        i <= s@.len(),
    ensures
        r matches Token::Command(Command::Other(w, v)) && w@ == s@.subrange(
            i as int,
            word_end_spec(s@, i as int),
        ) && v@ == s@.subrange(space_end_spec(s@, word_end_spec(s@, i as int)), s@.len() as int),
{
    let e = word_end(s, i);
    let k = space0(s, e);
    proof {
        lemma_word_end(s@, i as int, e as int);
        lemma_space_end(s@, e as int, k as int);
    }
    Token::Command(Command::Other(slice_string(line, s, i, e), slice_string(line, s, k, s.len())))
}

/// The end of the run of non-whitespace characters from `i` on.
pub open spec fn word_end_spec(s: Seq<char>, i: int) -> int
    decreases s.len() - i,
{
    if i < 0 || i >= s.len() || is_ws(s[i]) {
        i
    } else {
        word_end_spec(s, i + 1)
    }
}

/// The end of the run of whitespace characters from `i` on.
pub open spec fn space_end_spec(s: Seq<char>, i: int) -> int
    decreases s.len() - i,
{
    if i < 0 || i >= s.len() || !is_ws(s[i]) {
        i
    } else {
        space_end_spec(s, i + 1)
    }
}

proof fn lemma_word_end(s: Seq<char>, i: int, e: int)
    requires
        0 <= i <= e <= s.len(),
        forall|j: int| i <= j < e ==> !is_ws(#[trigger] s[j]),
        e == s.len() || is_ws(s[e]),
    ensures
        word_end_spec(s, i) == e,
    decreases e - i,
{
    if i < e {
        lemma_word_end(s, i + 1, e);
    }
}

proof fn lemma_space_end(s: Seq<char>, i: int, e: int)
    requires
        0 <= i <= e <= s.len(),
        forall|j: int| i <= j < e ==> is_ws(#[trigger] s[j]),
        e == s.len() || !is_ws(s[e]),
    ensures
        space_end_spec(s, i) == e,
    decreases e - i,
{
    if i < e {
        lemma_space_end(s, i + 1, e);
    }
}

/// The token of the text after a `%` at `i`: URL, EMAIL, or `Other`.
fn percent_command(line: &str, s: &Vec<char>, i: usize) -> (r: Token)
    requires
        s@ == line@,
        i <= s@.len(),
    ensures
        percent_sound(s@, i as int, r),
{
    if let Some(t) = rec_rest(line, s, i, "URL") {
        return Token::Command(Command::Url(t));
    }
    if let Some(t) = rec_rest(line, s, i, "EMAIL") {
        return Token::Command(Command::Email(t));
    }
    other(line, s, i)
}

/// The token of the text after a `#` at `i`: the recognizers are tried in a
/// fixed order and the first that takes the text wins; a text that none
/// takes becomes an `Other` command.
#[verifier::rlimit(100)]
fn sharp_command(line: &str, s: &Vec<char>, i: usize) -> (r: Token)
    requires
        s@ == line@,
        i <= s@.len(),
    ensures
        sharp_sound(s@, i as int, r),
        r matches Token::Command(Command::Other(_, _)) ==> !plainly_recognized(s@, i as int),
{
    proof {
        reveal_strlit("TITLE");
        reveal_strlit("COMMENT");
    }
    if let Some(t) = main_data(line, s, i) {
        return t;
    }
    if let Some(n) = rec_int(s, i, "PLAYER") {
        if 1 <= n && n <= 4 {
            return Token::Command(Command::Player(n));
        }
    }
    if let Some(n) = rec_int(s, i, "RANK") {
        return Token::Command(Command::Rank(n));
    }
    if let Some(d) = rec_float(line, s, i, "DEFEXRANK") {
        return Token::Command(Command::DefExRank(d));
    }
    if let Some((ch, d)) = rec_ch_float(line, s, i, "EXRANK") {
        return Token::Command(Command::ExRank(ch, d));
    }
    if let Some(d) = rec_float(line, s, i, "TOTAL") {
        return Token::Command(Command::Total(d));
    }
    if let Some(d) = rec_float(line, s, i, "VOLWAV") {
        return Token::Command(Command::VolumeWav(d));
    }
    if let Some(t) = rec_rest(line, s, i, "STAGEFILE") {
        return Token::Command(Command::StageFile(t));
    }
    if let Some(t) = rec_rest(line, s, i, "BANNER") {
        return Token::Command(Command::Banner(t));
    }
    if let Some(t) = rec_rest(line, s, i, "BACKBMP") {
        return Token::Command(Command::BackBmp(t));
    }
    if let Some(t) = rec_rest(line, s, i, "CHARFILE") {
        return Token::Command(Command::CharacterFile(t));
    }
    if let Some(n) = rec_int(s, i, "PLAYLEVEL") {
        return Token::Command(Command::PlayLevel(n));
    }
    if let Some(n) = rec_int(s, i, "DIFFICULTY") {
        return Token::Command(Command::Difficulty(n));
    }
    if let Some(t) = rec_quoted_or_rest(line, s, i, "TITLE") {
        return Token::Command(Command::Title(t));
    }
    if let Some(t) = rec_rest(line, s, i, "SUBTITLE") {
        return Token::Command(Command::SubTitle(t));
    }
    if let Some(t) = rec_rest(line, s, i, "ARTIST") {
        return Token::Command(Command::Artist(t));
    }
    if let Some(t) = rec_rest(line, s, i, "SUBARTIST") {
        return Token::Command(Command::SubArtist(t));
    }
    if let Some(t) = rec_rest(line, s, i, "MAKER") {
        return Token::Command(Command::Maker(t));
    }
    if let Some(t) = rec_rest(line, s, i, "GENRE") {
        return Token::Command(Command::Genre(t));
    }
    if let Some(t) = rec_quoted_or_rest(line, s, i, "COMMENT") {
        return Token::Command(Command::Comment(t));
    }
    if let Some((ch, t)) = rec_ch_quoted(s, i, "TEXT") {
        return Token::Command(Command::Text(ch, t));
    }
    if let Some((ch, t)) = rec_ch_quoted(s, i, "SONG") {
        return Token::Command(Command::Text(ch, t));
    }
    if let Some(t) = rec_rest(line, s, i, "PATH_WAV") {
        return Token::Command(Command::PathWav(t));
    }
    if let Some(d) = rec_float(line, s, i, "BPM") {
        return Token::Command(Command::Bpm(d));
    }
    if let Some((ch, d)) = rec_ch_float(line, s, i, "BPM") {
        return Token::Command(Command::ExBpm(ch, d));
    }
    if let Some((ch, d)) = rec_ch_float(line, s, i, "EXBPM") {
        return Token::Command(Command::ExBpm(ch, d));
    }
    if let Some(d) = rec_float(line, s, i, "BASEBPM") {
        return Token::Command(Command::BaseBpm(d));
    }
    if let Some((ch, d)) = rec_ch_float(line, s, i, "STOP") {
        return Token::Command(Command::Stop(ch, d));
    }
    if let Some(t) = stp(line, s, i) {
        return t;
    }
    if let Some(n) = rec_int(s, i, "LNMODE") {
        if 1 <= n && n <= 3 {
            return Token::Command(Command::LnMode(n));
        }
    }
    if let Some(n) = rec_int(s, i, "LNTYPE") {
        if 1 <= n && n <= 2 {
            return Token::Command(Command::LnType(n));
        }
    }
    if let Some(ch) = rec_ch(s, i, "LNOBJ", true) {
        return Token::Command(Command::LnObject(ch));
    }
    if keyword(s, i, "OCT/FP").is_some() {
        return Token::Command(Command::OctFp);
    }
    if let Some(t) = option(line, s, i) {
        return t;
    }
    if let Some(t) = change_option(line, s, i) {
        return t;
    }
    if let Some((ch, t)) = rec_ch_rest(line, s, i, "WAV") {
        return Token::Command(Command::Wav(ch, t));
    }
    if let Some(t) = wav_command(line, s, i) {
        return t;
    }
    if let Some(t) = ex_wav(line, s, i) {
        return t;
    }
    if let Some(n) = rec_uint(s, i, "CDDA", u32::MAX as u128) {
        return Token::Command(Command::Cdda(n as u32));
    }
    if let Some(t) = rec_rest(line, s, i, "MIDIFILE") {
        return Token::Command(Command::MidiFile(t));
    }
    if let Some((ch, t)) = rec_ch_rest(line, s, i, "BMP") {
        return Token::Command(Command::Bmp(ch, t));
    }
    if let Some(t) = ex_bmp(line, s, i) {
        return t;
    }
    proof {
        reveal_strlit("BGA");
        reveal_strlit("@BGA");
    }
    if let Some((ch, b, p)) = bga(line, s, i, "BGA") {
        return Token::Command(Command::Bga(ch, b, p));
    }
    if let Some((ch, b, p)) = bga(line, s, i, "@BGA") {
        return Token::Command(Command::AtBga(ch, b, p));
    }
    if let Some(n) = rec_int(s, i, "POORBGA") {
        if 0 <= n && n <= 2 {
            return Token::Command(Command::PoorBga(n));
        }
    }
    if let Some(t) = switch_bga(line, s, i) {
        return t;
    }
    if let Some(t) = argb(s, i) {
        return t;
    }
    if let Some(t) = rec_rest(line, s, i, "VIDEOFILE") {
        return Token::Command(Command::VideoFile(t));
    }
    if let Some(d) = rec_float(line, s, i, "VIDEOf/s") {
        return Token::Command(Command::VideoFps(d));
    }
    if let Some(n) = rec_uint(s, i, "VIDEOCOLORS", u32::MAX as u128) {
        return Token::Command(Command::VideoColors(n as u32));
    }
    if let Some(n) = rec_uint(s, i, "VIDEODELAY", u32::MAX as u128) {
        return Token::Command(Command::VideoDelay(n as u32));
    }
    if let Some(t) = rec_rest(line, s, i, "MOVIE") {
        return Token::Command(Command::Movie(t));
    }
    if let Some((ch, d)) = rec_ch_float(line, s, i, "SEEK") {
        return Token::Command(Command::Seek(ch, d));
    }
    if let Some(t) = ex_character(line, s, i) {
        return t;
    }
    if let Some((ch, d)) = rec_ch_float(line, s, i, "SCROLL") {
        return Token::Command(Command::Scroll(ch, d));
    }
    if let Some((ch, d)) = rec_ch_float(line, s, i, "SPEED") {
        return Token::Command(Command::Speed(ch, d));
    }
    if let Some(t) = rec_rest(line, s, i, "PREVIEW") {
        return Token::Command(Command::Preview(t));
    }
    if base62_marker(s, i) {
        return Token::Command(Command::Base62);
    }
    if let Some(n) = rec_uint(s, i, "RANDOM", u128::MAX) {
        return Token::ControlFlow(ControlFlow::Random(n));
    }
    if let Some(n) = rec_uint(s, i, "SETRANDOM", u128::MAX) {
        return Token::ControlFlow(ControlFlow::SetRandom(n));
    }
    if keyword(s, i, "ENDRANDOM").is_some() {
        return Token::ControlFlow(ControlFlow::EndRandom);
    }
    if let Some(n) = rec_uint(s, i, "IF", u128::MAX) {
        return Token::ControlFlow(ControlFlow::If(n));
    }
    if let Some(n) = rec_uint(s, i, "ELSEIF", u128::MAX) {
        return Token::ControlFlow(ControlFlow::ElseIf(n));
    }
    if keyword(s, i, "ELSE").is_some() {
        return Token::ControlFlow(ControlFlow::Else);
    }
    if keyword(s, i, "ENDIF").is_some() {
        return Token::ControlFlow(ControlFlow::EndIf);
    }
    if let Some(n) = rec_uint(s, i, "SWITCH", u128::MAX) {
        return Token::ControlFlow(ControlFlow::Switch(n));
    }
    if let Some(n) = rec_uint(s, i, "SETSWITCH", u128::MAX) {
        return Token::ControlFlow(ControlFlow::SetSwitch(n));
    }
    if keyword(s, i, "ENDSW").is_some() {
        return Token::ControlFlow(ControlFlow::EndSwitch);
    }
    if let Some(n) = rec_uint(s, i, "CASE", u128::MAX) {
        return Token::ControlFlow(ControlFlow::Case(n));
    }
    if keyword(s, i, "SKIP").is_some() {
        return Token::ControlFlow(ControlFlow::Skip);
    }
    if keyword(s, i, "DEFAULT").is_some() {
        return Token::ControlFlow(ControlFlow::Default);
    }
    other(line, s, i)
}

/// The line from `i` on is `kw`, one whitespace character, and `v`.
pub open spec fn rest_form(s: Seq<char>, i: int, kw: Seq<char>, v: Seq<char>) -> bool {
    &&& caseless_at(s, i, kw)
    &&& i + kw.len() < s.len()
    &&& is_ws(s[i + kw.len()])
    &&& v == s.subrange(i + kw.len() + 1, s.len() as int)
}

/// The line from `i` on is the word `w`, whitespace, and the rest `v`.
pub open spec fn other_form(s: Seq<char>, i: int, w: Seq<char>, v: Seq<char>) -> bool {
    &&& w == s.subrange(i, word_end_spec(s, i))
    &&& v == s.subrange(space_end_spec(s, word_end_spec(s, i)), s.len() as int)
}

/// What a token lexed from the text after a `#` at `i` tells of that text:
/// the command word it was recognized by, the range its code was checked
/// against, and for a command that no recognizer took, its word and rest.
pub open spec fn sharp_sound(s: Seq<char>, i: int, t: Token) -> bool {
    match t {
        Token::Command(c) => match c {
            Command::MainData(m, v) => i + 5 <= s.len() && is_digit(s[i]) && is_digit(s[i + 1])
                && is_digit(s[i + 2]) && m == digits_value(s, i, i + 3) && payload_fits(
                base36_at_spec(s, i + 3) as usize,
                v,
            ) && main_accepts(s, i) && payload_is(s, payload_start(s, i), v),
            Command::Player(n) => int_kw(s, i, "PLAYER"@, n as int) && 1 <= n <= 4,
            Command::Rank(n) => int_kw(s, i, "RANK"@, n as int),
            Command::DefExRank(d) => float_kw(s, i, "DEFEXRANK"@, d.text@),
            Command::ExRank(ch, d) => ch_float_kw(s, i, "EXRANK"@, ch, d.text@),
            Command::Total(d) => float_kw(s, i, "TOTAL"@, d.text@),
            Command::VolumeWav(d) => float_kw(s, i, "VOLWAV"@, d.text@),
            Command::StageFile(v) => rest_form(s, i, "STAGEFILE"@, v@),
            Command::Banner(v) => rest_form(s, i, "BANNER"@, v@),
            Command::BackBmp(v) => rest_form(s, i, "BACKBMP"@, v@),
            Command::CharacterFile(v) => rest_form(s, i, "CHARFILE"@, v@),
            Command::PlayLevel(n) => int_kw(s, i, "PLAYLEVEL"@, n as int),
            Command::Difficulty(n) => int_kw(s, i, "DIFFICULTY"@, n as int),
            Command::Title(v) => quoted_form(s, i, "TITLE"@, v@),
            Command::SubTitle(v) => rest_form(s, i, "SUBTITLE"@, v@),
            Command::Artist(v) => rest_form(s, i, "ARTIST"@, v@),
            Command::SubArtist(v) => rest_form(s, i, "SUBARTIST"@, v@),
            Command::Maker(v) => rest_form(s, i, "MAKER"@, v@),
            Command::Genre(v) => rest_form(s, i, "GENRE"@, v@),
            Command::Comment(v) => quoted_form(s, i, "COMMENT"@, v@),
            Command::Text(ch, t) => ch_quoted_kw(s, i, "TEXT"@, ch, t@) || ch_quoted_kw(s, i, "SONG"@, ch, t@),
            Command::PathWav(v) => rest_form(s, i, "PATH_WAV"@, v@),
            Command::Bpm(d) => float_kw(s, i, "BPM"@, d.text@),
            Command::ExBpm(ch, d) => ch_float_kw(s, i, "BPM"@, ch, d.text@) || ch_float_kw(s, i, "EXBPM"@, ch, d.text@),
            Command::BaseBpm(d) => float_kw(s, i, "BASEBPM"@, d.text@),
            Command::Stop(ch, d) => ch_float_kw(s, i, "STOP"@, ch, d.text@),
            Command::Stp(x, y, z) => {
                let k = value_at(s, i, "STP"@);
                let p = digit_run_end(s, k);
                &&& rest_accepts(s, i, "STP"@)
                &&& x == padded_value(s, k, usize::MAX as nat)
                &&& p < s.len() && s[p] == '.'
                &&& y == padded_value(s, p + 1, u32::MAX as nat)
                &&& y < 1000
                &&& spaced_float_end(s, digit_run_end(s, p + 1)) matches Some(e) && z.text@
                    == s.subrange(space_end_spec(s, digit_run_end(s, p + 1)), e)
            },
            Command::LnMode(n) => int_kw(s, i, "LNMODE"@, n as int) && 1 <= n <= 3,
            Command::LnType(n) => int_kw(s, i, "LNTYPE"@, n as int) && 1 <= n <= 2,
            Command::LnObject(ch) => rest_accepts(s, i, "LNOBJ"@) && channel_is(s, value_at(s, i, "LNOBJ"@), ch),
            Command::OctFp => caseless_at(s, i, "OCT/FP"@),
            Command::Option(a, b) => rest_accepts(s, i, "OPTION"@) && name_value_at(
                s,
                value_at(s, i, "OPTION"@),
                a@,
                b@,
            ),
            Command::ChangeOption(ch, a, b) => caseless_at(s, i, "CHANGEOPTION"@) && channel_is(
                s,
                i + "CHANGEOPTION"@.len(),
                ch,
            ) && i + "CHANGEOPTION"@.len() + 2 < s.len() && is_ws(s[i + "CHANGEOPTION"@.len() + 2])
                && name_value_at(s, space_end_spec(s, i + "CHANGEOPTION"@.len() + 2), a@, b@),
            Command::Wav(ch, t) => ch_rest_kw(s, i, "WAV"@, ch, t@),
            Command::WavCommand(id, ch, v) => {
                let k = value_at(s, i, "WAVCMD"@);
                let p = digit_run_end(s, k);
                &&& rest_accepts(s, i, "WAVCMD"@)
                &&& id == padded_value(s, k, 2147483647)
                &&& 0 <= id <= 2
                &&& p < s.len() && is_ws(s[p])
                &&& channel_is(s, space_end_spec(s, p), ch)
                &&& seq![v.text@] == float_texts(s, space_end_spec(s, p) + 2, 1)
            },
            Command::ExWav(ch, o, name) => caseless_at(s, i, "EXWAV"@) && ex_wav_in_range(o@)
                && ex_wav_fields(s, i, ch, o@, name@),
            Command::Cdda(n) => uint_kw(s, i, "CDDA"@, n as int),
            Command::MidiFile(v) => rest_form(s, i, "MIDIFILE"@, v@),
            Command::Bmp(ch, t) => ch_rest_kw(s, i, "BMP"@, ch, t@),
            Command::ExBmp(ch, q, name) => {
                &&& caseless_at(s, i, "EXBMP"@)
                &&& channel_is(s, i + 5, ch)
                &&& i + 7 < s.len() && is_ws(s[i + 7])
                &&& quad_values(s, space_end_spec(s, i + 7), q@)
                &&& quad_end(s, space_end_spec(s, i + 7)) matches Some(e) && 0 <= e < s.len()
                    && is_ws(s[e]) && name@ == s.subrange(e + 1, s.len() as int)
            },
            Command::Bga(ch, b, p) => caseless_at(s, i, "BGA"@) && channel_is(s, i + 3, ch)
                && channel_is(s, space_end_spec(s, i + 5), b) && pairs3_texts(p) == float_texts(
                s,
                space_end_spec(s, i + 5) + 2,
                6,
            ),
            Command::AtBga(ch, b, p) => caseless_at(s, i, "@BGA"@) && channel_is(s, i + 4, ch)
                && channel_is(s, space_end_spec(s, i + 6), b) && pairs3_texts(p) == float_texts(
                s,
                space_end_spec(s, i + 6) + 2,
                6,
            ),
            Command::PoorBga(n) => int_kw(s, i, "POORBGA"@, n as int) && 0 <= n <= 2,
            Command::SwitchBga(ch, f, t, key, lp, q, pat) => caseless_at(s, i, "SWBGA"@)
                && switch_bga_fields(s, i, ch, f.text@, t.text@, key, lp, q@, pat@),
            Command::Argb(ch, q) => caseless_at(s, i, "ARGB"@) && channel_is(s, i + 4, ch) && i + 6
                < s.len() && is_ws(s[i + 6]) && quad_values(s, space_end_spec(s, i + 6), q@),
            Command::VideoFile(v) => rest_form(s, i, "VIDEOFILE"@, v@),
            Command::VideoFps(d) => float_kw(s, i, "VIDEOf/s"@, d.text@),
            Command::VideoColors(n) => uint_kw(s, i, "VIDEOCOLORS"@, n as int),
            Command::VideoDelay(n) => uint_kw(s, i, "VIDEODELAY"@, n as int),
            Command::Movie(v) => rest_form(s, i, "MOVIE"@, v@),
            Command::Seek(ch, d) => ch_float_kw(s, i, "SEEK"@, ch, d.text@),
            Command::ExCharacter(sn, b, tr, off, ab) => caseless_at(s, i, "ExtChr"@) && sn < 1024
                && b < 256 && ex_character_is(s, i, sn, b, off is Some, ab is Some)
                && ex_character_texts(s, i, tr, off, ab),
            Command::Url(_) => false,
            Command::Email(_) => false,
            Command::Scroll(ch, d) => ch_float_kw(s, i, "SCROLL"@, ch, d.text@),
            Command::Speed(ch, d) => ch_float_kw(s, i, "SPEED"@, ch, d.text@),
            Command::Preview(v) => rest_form(s, i, "PREVIEW"@, v@),
            Command::Base62 => int_kw(s, i, "BASE"@, 62),
            Command::Other(w, v) => other_form(s, i, w@, v@),
        },
        Token::ControlFlow(f) => match f {
            ControlFlow::Random(n) => uint_kw(s, i, "RANDOM"@, n as int),
            ControlFlow::SetRandom(n) => uint_kw(s, i, "SETRANDOM"@, n as int),
            ControlFlow::EndRandom => caseless_at(s, i, "ENDRANDOM"@),
            ControlFlow::If(n) => uint_kw(s, i, "IF"@, n as int),
            ControlFlow::ElseIf(n) => uint_kw(s, i, "ELSEIF"@, n as int),
            ControlFlow::Else => caseless_at(s, i, "ELSE"@) && !uint_kw_accepts(
                s,
                i,
                "ELSEIF"@,
                u128::MAX as nat,
            ),
            ControlFlow::EndIf => caseless_at(s, i, "ENDIF"@),
            ControlFlow::Switch(n) => uint_kw(s, i, "SWITCH"@, n as int),
            ControlFlow::SetSwitch(n) => uint_kw(s, i, "SETSWITCH"@, n as int),
            ControlFlow::EndSwitch => caseless_at(s, i, "ENDSW"@),
            ControlFlow::Case(n) => uint_kw(s, i, "CASE"@, n as int),
            ControlFlow::Skip => caseless_at(s, i, "SKIP"@),
            ControlFlow::Default => caseless_at(s, i, "DEFAULT"@),
        },
    }
}

/// The pitch, volume and frequency of an extended sound lie in their
/// ranges: -10000 to 1000, -10000 to 0, and 100 to 10000.
pub open spec fn ex_wav_in_range(o: Seq<Option<Decimal>>) -> bool {
    &&& o.len() == 3
    &&& (o[0] matches Some(p) ==> within(p.text@, -10000, 1000))
    &&& (o[1] matches Some(v) ==> within(v.text@, -10000, 0))
    &&& (o[2] matches Some(f) ==> within(f.text@, 100, 10000))
}

/// What a token lexed from the text after a `%` at `i` tells of that text.
pub open spec fn percent_sound(s: Seq<char>, i: int, t: Token) -> bool {
    match t {
        Token::Command(Command::Url(v)) => rest_form(s, i, "URL"@, v@),
        Token::Command(Command::Email(v)) => rest_form(s, i, "EMAIL"@, v@),
        Token::Command(Command::Other(w, v)) => other_form(s, i, w@, v@) && !rest_accepts(
            s,
            i,
            "URL"@,
        ) && !rest_accepts(s, i, "EMAIL"@),
        _ => false,
    }
}

/// What a token lexed from a line tells of it: the sigil after the leading
/// whitespace, and what the text after the sigil says.
pub open spec fn line_sound(s: Seq<char>, t: Token) -> bool {
    let k = space_end_spec(s, 0);
    &&& 0 <= k < s.len()
    &&& (s[k] == '#' && sharp_sound(s, k + 1, t)) || (s[k] == '%' && percent_sound(s, k + 1, t))
}

/// The first character of a line that is not whitespace, if any.
pub open spec fn first_non_ws(s: Seq<char>) -> Option<char> {
    let k = space_end_spec(s, 0);
    if k < s.len() {
        Some(s[k])
    } else {
        None
    }
}

/// Lexes one line. A line gives no token when it is blank or its first
/// character other than whitespace is neither `#` nor `%`; otherwise the
/// recognizers are tried in turn after the sigil, and a line that none of
/// them takes becomes an `Other` command with its word and the rest.
pub fn lex_line(line: &str) -> (r: Option<Token>)
    ensures
        r is None <==> !(first_non_ws(line@) == Some('#') || first_non_ws(line@) == Some('%')),
        r matches Some(t) ==> line_sound(line@, t) && line_ok(line@, t),
{
    let s = chars_of(line);
    let i = space0(&s, 0);
    proof {
        lemma_space_end(s@, 0, i as int);
    }
    if i == s.len() {
        return None;
    }
    if s[i] == '%' {
        Some(percent_command(line, &s, i + 1))
    } else if s[i] == '#' {
        Some(sharp_command(line, &s, i + 1))
    } else {
        None
    }
}

/// The index of the first line feed from `i` on, or the end of the text.
pub open spec fn line_feed_at(s: Seq<char>, i: int) -> int
    decreases s.len() - i,
{
    if i < 0 {
        0
    } else if i >= s.len() || s[i] == '\n' {
        i
    } else {
        line_feed_at(s, i + 1)
    }
}

/// The text of the line that starts at `i`: up to the next line feed, with
/// a carriage return just before that line feed left out.
pub open spec fn line_text(s: Seq<char>, i: int) -> Seq<char> {
    let e = line_feed_at(s, i);
    if e < s.len() && e > i && s[e - 1] == '\r' {
        s.subrange(i, e - 1)
    } else {
        s.subrange(i, e)
    }
}

/// The lines of a text from `i` on. A line feed ends a line; there is no
/// empty line after a final line feed, and a carriage return that ends the
/// text stays in the last line.
pub open spec fn lines_from(s: Seq<char>, i: int) -> Seq<Seq<char>>
    decreases s.len() - i,
{
    if i < 0 || i >= s.len() {
        Seq::empty()
    } else if line_feed_at(s, i) >= s.len() {
        seq![line_text(s, i)]
    } else if line_feed_at(s, i) >= i {
        seq![line_text(s, i)] + lines_from(s, line_feed_at(s, i) + 1)
    } else {
        Seq::empty()
    }
}

/// The lines of a text.
pub open spec fn lines_of(s: Seq<char>) -> Seq<Seq<char>> {
    lines_from(s, 0)
}

/// The stretches of a text between the given bounds.
pub open spec fn bounded(s: Seq<char>, b: Seq<(usize, usize)>) -> Seq<Seq<char>> {
    b.map_values(|p: (usize, usize)| s.subrange(p.0 as int, p.1 as int))
}

fn line_feed(s: &Vec<char>, i: usize) -> (r: usize)
    requires
        i <= s@.len(),
    ensures
        r as int == line_feed_at(s@, i as int),
        i <= r <= s@.len(),
{
    let mut k = i;
    while k < s.len() && s[k] != '\n'
        invariant
            i <= k <= s@.len(),
            line_feed_at(s@, i as int) == line_feed_at(s@, k as int),
        decreases s@.len() - k,
    {
        k = k + 1;
    }
    k
}

/// The bounds of the lines of a text.
fn line_bounds(s: &Vec<char>) -> (r: Vec<(usize, usize)>)
    ensures
        forall|j: int| 0 <= j < r@.len() ==> (#[trigger] r@[j]).0 <= r@[j].1 <= s@.len(),
        bounded(s@, r@) == lines_of(s@),
{
    let mut r: Vec<(usize, usize)> = Vec::new();
    let mut start: usize = 0;
    assert(bounded(s@, r@) =~= Seq::<Seq<char>>::empty());
    while start < s.len()
        invariant
            start <= s@.len(),
            forall|j: int| 0 <= j < r@.len() ==> (#[trigger] r@[j]).0 <= r@[j].1 <= s@.len(),
            lines_of(s@) == bounded(s@, r@) + lines_from(s@, start as int),
        decreases s@.len() - start,
    {
        let e = line_feed(s, start);
        let end = if e < s.len() && e > start && s[e - 1] == '\r' {
            e - 1
        } else {
            e
        };
        let ghost b0 = r@;
        r.push((start, end));
        proof {
            assert(bounded(s@, r@) =~= bounded(s@, b0).push(line_text(s@, start as int)));
        }
        if e < s.len() {
            proof {
                assert(lines_from(s@, start as int) == seq![line_text(s@, start as int)]
                    + lines_from(s@, e + 1));
                assert(bounded(s@, b0) + (seq![line_text(s@, start as int)] + lines_from(
                    s@,
                    e + 1,
                )) =~= bounded(s@, r@) + lines_from(s@, e + 1));
            }
            start = e + 1;
        } else {
            proof {
                assert(lines_from(s@, start as int) == seq![line_text(s@, start as int)]);
                assert(lines_from(s@, s@.len() as int) =~= Seq::<Seq<char>>::empty());
                assert(bounded(s@, b0) + seq![line_text(s@, start as int)] =~= bounded(s@, r@)
                    + lines_from(s@, s@.len() as int));
            }
            start = s.len();
        }
    }
    assert(lines_from(s@, start as int) =~= Seq::<Seq<char>>::empty());
    assert(bounded(s@, r@) + Seq::<Seq<char>>::empty() =~= bounded(s@, r@));
    r
}

/// Whether a line gives a token: its first character other than
/// whitespace is `#` or `%`.
pub open spec fn has_sigil(line: Seq<char>) -> bool {
    first_non_ws(line) == Some('#') || first_non_ws(line) == Some('%')
}

/// What the lexer makes of one line: a sound token, and `Other` only for a
/// `#` line that no plain recognizer takes.
pub open spec fn line_ok(line: Seq<char>, t: Token) -> bool {
    &&& line_sound(line, t)
    &&& (t matches Token::Command(Command::Other(_, _)) && first_non_ws(line) == Some('#'))
        ==> !plainly_recognized(line, space_end_spec(line, 0) + 1)
}

/// The tokens of the lines, in order: one for each line with a sigil, none
/// for the others.
pub open spec fn lexes_to(ls: Seq<Seq<char>>, ts: Seq<Token>) -> bool
    decreases ls.len(),
{
    if ls.len() == 0 {
        ts.len() == 0
    } else if has_sigil(ls.last()) {
        ts.len() > 0 && line_ok(ls.last(), ts.last()) && lexes_to(ls.drop_last(), ts.drop_last())
    } else {
        lexes_to(ls.drop_last(), ts)
    }
}

/// Lexes a whole text, line by line: one token for each line with a sigil,
/// in line order.
pub fn lex(source: &str) -> (r: Vec<Token>)
    ensures
        lexes_to(lines_of(source@), r@),
{
    let s = chars_of(source);
    let bounds = line_bounds(&s);
    let mut r: Vec<Token> = Vec::new();
    let mut j: usize = 0;
    assert(bounded(s@, bounds@).subrange(0, 0) =~= Seq::<Seq<char>>::empty());
    while j < bounds.len()
        invariant
            j <= bounds@.len(),
            s@ == source@,
            forall|t: int| 0 <= t < bounds@.len() ==> (#[trigger] bounds@[t]).0 <= bounds@[t].1
                <= s@.len(),
            bounded(s@, bounds@) == lines_of(s@),
            lexes_to(bounded(s@, bounds@).subrange(0, j as int), r@),
        decreases bounds@.len() - j,
    {
        let (a, b) = bounds[j];
        let line = source.substring_char(a, b);
        let ghost ls = bounded(s@, bounds@);
        let ghost r0 = r@;
        assert(line@ == ls[j as int]);
        assert(ls.subrange(0, j + 1).drop_last() =~= ls.subrange(0, j as int));
        assert(ls.subrange(0, j + 1).last() == ls[j as int]);
        if let Some(t) = lex_line(line) {
            r.push(t);
            assert(r@.drop_last() =~= r0);
        }
        j = j + 1;
    }
    assert(bounded(s@, bounds@).subrange(0, j as int) =~= bounded(s@, bounds@));
    r
}

} // verus!
