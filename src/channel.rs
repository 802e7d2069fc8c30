//! Two-character channel identifiers and their base-36 / base-62 readings.
use vstd::prelude::*;
use vstd::string::StringSliceAdditionalSpecFns;

verus! {

/// The digit value of one character of a channel: `0-9` are 0 to 9, `A-Z`
/// are 10 to 35, `a-z` are 36 to 61; any other byte counts as 0.
pub open spec fn digit_value(c: u8) -> nat {
    if 48 <= c <= 57 {
        (c - 48) as nat
    } else if 65 <= c <= 90 {
        (c - 65 + 10) as nat
    } else if 97 <= c <= 122 {
        (c - 97 + 36) as nat
    } else {
        0
    }
}

/// Folds a lower-case digit onto the matching upper-case one.
pub open spec fn fold_case(d: nat) -> nat {
    if d < 36 {
        d
    } else {
        (d - 26) as nat
    }
}

/// The case-insensitive reading of a pair of digits.
pub open spec fn base36_of(d0: nat, d1: nat) -> nat {
    36 * fold_case(d0) + fold_case(d1)
}

/// The case-sensitive reading of a pair of digits.
pub open spec fn base62_of(d0: nat, d1: nat) -> nat {
    62 * d0 + d1
}

/// The two digits that a channel text stands for: the first two bytes, with
/// a shorter text padded on the left by the zero digit.
pub open spec fn digits_of(b: Seq<u8>) -> (nat, nat) {
    if b.len() == 0 {
        (0, 0)
    } else if b.len() == 1 {
        (0, digit_value(b[0]))
    } else {
        (digit_value(b[0]), digit_value(b[1]))
    }
}

/// Whether a byte is an ASCII letter or digit.
pub open spec fn is_alnum(c: u8) -> bool {
    (48 <= c <= 57) || (65 <= c <= 90) || (97 <= c <= 122)
}

/// The upper-case form of an ASCII byte.
pub open spec fn upper(c: u8) -> u8 {
    if 97 <= c <= 122 {
        (c - 32) as u8
    } else {
        c
    }
}

/// The lower-case form of an ASCII byte.
pub open spec fn lower(c: u8) -> u8 {
    if 65 <= c <= 90 {
        (c + 32) as u8
    } else {
        c
    }
}

/// Two alphanumeric characters, kept as digits until it is known whether
/// the chart reads them in base 36 or in base 62.
#[derive(Clone, Copy, Debug, PartialEq, Eq, PartialOrd, Ord, Hash)]
pub struct Channel {
    d0: u8,
    d1: u8,
}

impl Channel {
    pub closed spec fn first(self) -> nat {
        self.d0 as nat
    }

    pub closed spec fn second(self) -> nat {
        self.d1 as nat
    }

    #[verifier::type_invariant]
    closed spec fn digits_in_range(self) -> bool {
        self.d0 < 62 && self.d1 < 62
    }

    /// The base-36 value of this channel.
    pub open spec fn base36(self) -> nat {
        base36_of(self.first(), self.second())
    }

    /// The base-62 value of this channel.
    pub open spec fn base62(self) -> nat {
        base62_of(self.first(), self.second())
    }

    /// The value under the chart-wide choice of base.
    pub open spec fn value(self, base62: bool) -> nat {
        if base62 {
            self.base62()
        } else {
            self.base36()
        }
    }

    fn parse_base_62(c: u8) -> (r: u8)
        ensures
            r as nat == digit_value(c),
            r < 62,
    {
        if 48 <= c && c <= 57 {
            c - 48
        } else if 65 <= c && c <= 90 {
            c - 65 + 10
        } else if 97 <= c && c <= 122 {
            c - 97 + 36
        } else {
            0
        }
    }

    /// A channel from the first two bytes of `s`; a one-byte text is padded
    /// on the left with the zero digit, and bytes that are not ASCII letters
    /// or digits count as 0.
    pub fn new(s: &str) -> (r: Channel)
        ensures
            (r.first(), r.second()) == digits_of(s.spec_bytes()),
    {
        let b = s.as_bytes();
        let n = b.len();
        if n == 0 {
            Channel { d0: 0, d1: 0 }
        } else if n == 1 {
            Channel { d0: 0, d1: Self::parse_base_62(b[0]) }
        } else {
            Channel { d0: Self::parse_base_62(b[0]), d1: Self::parse_base_62(b[1]) }
        }
    }

    /// A channel from two characters already known to be ASCII.
    pub fn from_chars(c0: char, c1: char) -> (r: Channel)
        requires
            (c0 as u32) < 128,
            (c1 as u32) < 128,
        ensures
            r.first() == digit_value(c0 as u8),
            r.second() == digit_value(c1 as u8),
    {
        Channel { d0: Self::parse_base_62(c0 as u8), d1: Self::parse_base_62(c1 as u8) }
    }

    fn convert_base_36(n: u8) -> (r: u8)
        requires
            n < 62,
        ensures
            r as nat == fold_case(n as nat),
    {
        if n < 36 {
            n
        } else {
            n - 26
        }
    }

    /// The value in base 36, where upper and lower case are the same digit.
    pub fn to_base_36(&self) -> (r: usize)
        ensures
            r as nat == self.base36(),
            r < 1296,
    {
        proof {
            use_type_invariant(self);
        }
        36 * Self::convert_base_36(self.d0) as usize + Self::convert_base_36(self.d1) as usize
    }

    /// The value in base 62, where upper and lower case are distinct digits.
    pub fn to_base_62(&self) -> (r: usize)
        ensures
            r as nat == self.base62(),
            r < 3844,
    {
        proof {
            use_type_invariant(self);
        }
        62 * self.d0 as usize + self.d1 as usize
    }

    /// The value in base 62 when `flag` is set, else in base 36.
    pub fn to_base_36_or_62(&self, flag: bool) -> (r: usize)
        ensures
            r as nat == self.value(flag),
    {
        if flag {
            self.to_base_62()
        } else {
            self.to_base_36()
        }
    }
}

impl From<&str> for Channel {
    fn from(value: &str) -> Channel {
        Self::new(value)
    }
}

impl vstd::std_specs::convert::FromSpecImpl<&str> for Channel {
    open spec fn obeys_from_spec() -> bool {
        true
    }

    closed spec fn from_spec(v: &str) -> Channel {
        Channel { d0: digits_of(v.spec_bytes()).0 as u8, d1: digits_of(v.spec_bytes()).1 as u8 }
    }
}

/// Two channels with the same digits are the same channel.
pub proof fn lemma_channel_digits_determine(a: Channel, b: Channel)
    requires
        a.first() == b.first(),
        a.second() == b.second(),
    ensures
        a == b,
{
}

/// The base-62 value determines the channel: distinct channels, whose
/// digits are below 62 as every channel's are, have distinct base-62
/// values.
pub proof fn lemma_base62_injective(a: Channel, b: Channel)
    requires
        a.base62() == b.base62(),
        a.second() < 62,
        b.second() < 62,
    ensures
        a == b,
{
    assert(a.first() == b.first() && a.second() == b.second()) by (nonlinear_arith)
        requires
            62 * a.first() + a.second() == 62 * b.first() + b.second(),
            a.second() < 62,
            b.second() < 62,
    ;
}

/// A two-character channel reads the same in base 36 whatever the case of
/// its letters.
pub proof fn lemma_base36_ignores_case(c0: u8, c1: u8)
    requires
        is_alnum(c0),
        is_alnum(c1),
    ensures
        base36_of(digit_value(lower(c0)), digit_value(lower(c1)))
            == base36_of(digit_value(upper(c0)), digit_value(upper(c1))),
{
}

/// In base 62 a lower-case letter and its upper-case form are different
/// digits, so the two channels differ.
pub proof fn lemma_base62_tells_case(c0: u8, c1: u8)
    requires
        97 <= c0 <= 122,
        is_alnum(c1),
    ensures
        base62_of(digit_value(c0), digit_value(c1))
            != base62_of(digit_value(upper(c0)), digit_value(c1)),
{
}

/// A one-character channel text reads as that character after the zero
/// digit, and an empty one as two zero digits: with the contract of
/// `Channel::new`, `new("q")` and `new("0q")` give the same channel.
pub proof fn lemma_single_char_padded(c: u8)
    ensures
        digits_of(seq![c]) == digits_of(seq![48u8, c]),
        digits_of(Seq::<u8>::empty()) == digits_of(seq![48u8, 48u8]),
{
}

} // verus!
