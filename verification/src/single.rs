//! Numbers in the binary32 format, held by their bit patterns.
//!
//! Nothing here computes with such a number. A `Single` can be stored, told
//! apart from the patterns that are no number, put in order, negated and
//! clamped: each of these reads or changes bits and is exact. Sums and
//! products are left to the caller.
//!
//! A pattern has a sign in its highest bit and a magnitude in the 31 bits
//! below it. Of two magnitudes of numbers the larger pattern is the larger
//! magnitude. A magnitude above that of infinity is no number.

use vstd::prelude::*;

verus! {

/// The sign bit.
pub const SIGN: u32 = 0x8000_0000;

/// The pattern of positive infinity, the largest magnitude of a number.
pub const INFINITY: u32 = 0x7F80_0000;

/// The pattern of 0.
pub const ZERO: u32 = 0;

/// The pattern of 1.
pub const ONE: u32 = 0x3F80_0000;

/// The pattern of the largest finite number.
pub const HIGHEST: u32 = 0x7F7F_FFFF;

/// The pattern of the smallest finite number, the largest one negated.
pub const LOWEST: u32 = 0xFF7F_FFFF;

/// A binary32 value, by its bits. Two values are equal where their bits are:
/// the two zeros are two values, and a pattern that is no number equals
/// itself.
#[derive(Clone, Copy, Debug, PartialEq, Eq, Structural)]
pub struct Single {
    pub bits: u32,
}

impl Single {
    /// The sign bit is set.
    pub open spec fn is_negative(self) -> bool {
        self.bits >= SIGN
    }

    /// The pattern without its sign bit.
    pub open spec fn magnitude(self) -> int {
        if self.bits >= SIGN {
            self.bits - SIGN
        } else {
            self.bits as int
        }
    }

    /// The pattern stands for no number.
    pub open spec fn is_nan(self) -> bool {
        self.magnitude() > INFINITY
    }

    /// The place of a pattern in the order of the numbers: of two patterns
    /// that are numbers, the one with the lower rank is the lower number. The
    /// two zeros are next to each other, the negative one first. No two
    /// patterns have one rank.
    pub open spec fn rank(self) -> int {
        if self.is_negative() {
            -self.magnitude() - 1
        } else {
            self.magnitude()
        }
    }

    /// The pattern is a number from 0 to 1, and not the negative zero.
    pub open spec fn in_unit(self) -> bool {
        self.bits <= ONE
    }

    /// The pattern with the sign bit turned over: the number negated.
    pub open spec fn negation(self) -> Single {
        if self.bits >= SIGN {
            Single { bits: (self.bits - SIGN) as u32 }
        } else {
            Single { bits: (self.bits + SIGN) as u32 }
        }
    }

    /// The number of the unit interval that is nearest to this one: 0 for
    /// what lies below 0, for the negative zero and for what is no number, 1
    /// for what lies above 1, and the number itself otherwise.
    pub open spec fn clamped(self) -> Single {
        if self.is_nan() || self.is_negative() {
            Single { bits: ZERO }
        } else if self.bits > ONE {
            Single { bits: ONE }
        } else {
            self
        }
    }

    /// The value with the given bits.
    pub fn from_bits(bits: u32) -> (r: Single)
        ensures
            r.bits == bits,
    {
        Single { bits }
    }

    /// The bits of the value.
    pub fn to_bits(self) -> (bits: u32)
        ensures
            bits == self.bits,
    {
        self.bits
    }

    /// The magnitude of the value: its bits without the sign.
    pub fn magnitude_bits(self) -> (m: u32)
        ensures
            m == self.magnitude(),
    {
        if self.bits >= SIGN {
            self.bits - SIGN
        } else {
            self.bits
        }
    }

    /// Tells whether the value is no number.
    pub fn is_not_a_number(self) -> (r: bool)
        ensures
            r == self.is_nan(),
    {
        self.magnitude_bits() > INFINITY
    }

    /// The rank of the value.
    pub fn order(self) -> (r: i64)
        ensures
            r == self.rank(),
    {
        let m: i64 = self.magnitude_bits() as i64;
        if self.bits >= SIGN {
            -m - 1
        } else {
            m
        }
    }

    /// The value negated.
    pub fn negated(self) -> (r: Single)
        ensures
            r == self.negation(),
    {
        if self.bits >= SIGN {
            Single { bits: self.bits - SIGN }
        } else {
            Single { bits: self.bits + SIGN }
        }
    }

    /// The value clamped to the unit interval.
    pub fn clamp_unit(self) -> (r: Single)
        ensures
            r == self.clamped(),
            r.in_unit(),
    {
        if self.is_not_a_number() || self.bits >= SIGN {
            Single { bits: ZERO }
        } else if self.bits > ONE {
            Single { bits: ONE }
        } else {
            self
        }
    }
}

/// Two patterns of one rank are the same pattern.
pub proof fn lemma_rank_tells_apart(a: Single, b: Single)
    requires
        a.rank() == b.rank(),
    ensures
        a == b,
{
}

/// Negating turns the order around and leaves the magnitude: the rank of
/// the negated value is the rank of the value, mirrored between the two
/// zeros. Negating twice gives the value back.
pub proof fn lemma_negation(a: Single)
    ensures
        a.negation().rank() == -a.rank() - 1,
        a.negation().magnitude() == a.magnitude(),
        a.negation().is_nan() == a.is_nan(),
        a.negation().negation() == a,
{
}

/// Clamping gives a number of the unit interval, leaves such a number as it
/// is, and keeps the order of numbers.
pub proof fn lemma_clamped(a: Single, b: Single)
    ensures
        a.clamped().in_unit(),
        !a.clamped().is_nan(),
        a.in_unit() ==> a.clamped() == a,
        a.clamped().clamped() == a.clamped(),
        !a.is_nan() && !b.is_nan() && a.rank() <= b.rank() ==> a.clamped().rank()
            <= b.clamped().rank(),
{
}

} // verus!
