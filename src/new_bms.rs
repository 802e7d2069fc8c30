//! A stricter channel type, whose constructor refuses a text that does not
//! begin with letters and digits.
use vstd::prelude::*;
use vstd::string::{StrSliceExecFns, StringSliceAdditionalSpecFns};

use crate::channel::digits_of;

verus! {

/// Whether a character is an ASCII letter or digit.
pub open spec fn is_alnum_char(c: char) -> bool {
    ('0' <= c <= '9') || ('A' <= c <= 'Z') || ('a' <= c <= 'z')
}

/// Whether the first two characters, or as many as there are, are ASCII
/// letters or digits.
pub open spec fn starts_alnum(s: Seq<char>) -> bool {
    (s.len() >= 1 ==> is_alnum_char(s[0])) && (s.len() >= 2 ==> is_alnum_char(s[1]))
}

/// Two alphanumeric characters, kept as digits until it is known whether
/// the chart reads them in base 36 or in base 62.
#[derive(Clone, Copy, Debug, PartialEq, Eq, PartialOrd, Ord, Hash)]
pub struct Channel {
    inner: crate::channel::Channel,
}

impl Channel {
    pub closed spec fn first(self) -> nat {
        self.inner.first()
    }

    pub closed spec fn second(self) -> nat {
        self.inner.second()
    }

    pub open spec fn base36(self) -> nat {
        crate::channel::base36_of(self.first(), self.second())
    }

    pub open spec fn base62(self) -> nat {
        crate::channel::base62_of(self.first(), self.second())
    }

    /// A channel from a text whose first two characters (or only one) are
    /// ASCII letters or digits; `None` for any other text.
    pub fn new(s: &str) -> (r: Option<Channel>)
        ensures
            r is Some <==> starts_alnum(s@),
            r matches Some(c) ==> (c.first(), c.second()) == digits_of(s.spec_bytes()),
    {
        let n = s.unicode_len();
        if n >= 1 && !is_alnum(s.get_char(0)) {
            return None;
        }
        if n >= 2 && !is_alnum(s.get_char(1)) {
            return None;
        }
        Some(Channel::new_unchecked(s))
    }

    /// A channel from the first two bytes of `s`, as the base-36 channel
    /// type reads them: bytes that are not letters or digits count as 0.
    pub fn new_unchecked(s: &str) -> (r: Channel)
        ensures
            (r.first(), r.second()) == digits_of(s.spec_bytes()),
    {
        Channel { inner: crate::channel::Channel::new(s) }
    }

    /// The value in base 62 when `flag` is set, else in base 36.
    pub fn to_base_36_or_62(&self, flag: bool) -> (r: usize)
        ensures
            r as nat == if flag {
                self.base62()
            } else {
                self.base36()
            },
    {
        self.inner.to_base_36_or_62(flag)
    }

    /// The value in base 36, where upper and lower case are the same digit.
    pub fn to_base_36(&self) -> (r: usize)
        ensures
            r as nat == self.base36(),
    {
        self.inner.to_base_36()
    }

    /// The value in base 62, where upper and lower case are distinct digits.
    pub fn to_base_62(&self) -> (r: usize)
        ensures
            r as nat == self.base62(),
    {
        self.inner.to_base_62()
    }
}

fn is_alnum(c: char) -> (r: bool)
    ensures
        r == is_alnum_char(c),
{
    ('0' <= c && c <= '9') || ('A' <= c && c <= 'Z') || ('a' <= c && c <= 'z')
}

} // verus!
