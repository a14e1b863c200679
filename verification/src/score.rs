//! Floating-point values, carried by their bits.
//!
//! The library never computes with floating-point numbers. It carries them, and it orders
//! similarity scores, which the bits of a number decide.

use vstd::prelude::*;

verus! {

/// A double-precision number, by its bits.
#[derive(Debug, Clone, Copy, PartialEq, Eq, Structural)]
pub struct Number {
    pub bits: u64,
}

impl Number {
    /// An integer that orders numbers as they are ordered by size. Both zeros have the same key.
    pub open spec fn key(self) -> int {
        if self.bits < 0x8000_0000_0000_0000 {
            self.bits as int
        } else {
            -(self.bits - 0x8000_0000_0000_0000)
        }
    }

    /// The ordering key.
    pub fn order_key(&self) -> (r: i64)
        ensures
            r == self.key(),
    {
        if self.bits < 0x8000_0000_0000_0000 {
            self.bits as i64
        } else {
            -((self.bits - 0x8000_0000_0000_0000) as i64)
        }
    }
}

/// A single-precision score, by its bits.
#[derive(Debug, Clone, Copy, PartialEq, Eq, Structural)]
pub struct Score {
    pub bits: u32,
}

impl Score {
    /// The bits without the sign.
    pub open spec fn magnitude(self) -> int {
        if self.bits < 0x8000_0000 {
            self.bits as int
        } else {
            self.bits - 0x8000_0000
        }
    }

    /// The bits stand for no number: the exponent is full and the fraction is not zero.
    pub open spec fn is_nan(self) -> bool {
        self.magnitude() > 0x7f80_0000
    }

    /// An integer that orders scores as the numbers they stand for are ordered. Both zeros
    /// have the same key.
    pub open spec fn key(self) -> int {
        if self.bits < 0x8000_0000 {
            self.magnitude()
        } else {
            -self.magnitude()
        }
    }

    /// The number is not less than that of `other`: never so where either is no number.
    pub open spec fn reaches(self, other: Score) -> bool {
        !self.is_nan() && !other.is_nan() && self.key() >= other.key()
    }

    /// The ordering key.
    pub fn order_key(&self) -> (r: i64)
        ensures
            r == self.key(),
    {
        if self.bits < 0x8000_0000 {
            self.bits as i64
        } else {
            -((self.bits - 0x8000_0000) as i64)
        }
    }

    /// Whether the bits stand for no number.
    pub fn not_a_number(&self) -> (r: bool)
        ensures
            r == self.is_nan(),
    {
        let m: u32 = if self.bits < 0x8000_0000 {
            self.bits
        } else {
            self.bits - 0x8000_0000
        };
        m > 0x7f80_0000
    }

    /// Whether the number is not less than that of `other`.
    pub fn at_least(&self, other: &Score) -> (r: bool)
        ensures
            r == self.reaches(*other),
    {
        !self.not_a_number() && !other.not_a_number() && self.order_key() >= other.order_key()
    }
}

/// A score reaches another where both are numbers and it is not the smaller one: scores that are
/// not negative go by their bits, a score reaches itself, none that is negative reaches one that
/// is above zero, and of two numbers at least one reaches the other.
pub proof fn law_scores_are_compared_by_size(a: Score, b: Score)
    ensures
        a.bits <= 0x7f80_0000 && b.bits <= 0x7f80_0000 ==> a.reaches(b) == (a.bits >= b.bits),
        !a.is_nan() ==> a.reaches(a),
        a.is_nan() || b.is_nan() ==> !a.reaches(b),
        a.bits >= 0x8000_0000 && 0 < b.bits <= 0x7f80_0000 ==> !a.reaches(b),
        !a.is_nan() && !b.is_nan() ==> a.reaches(b) || b.reaches(a),
        0x7f80_0000 < a.bits < 0x8000_0000 ==> a.is_nan(),
        a.bits <= 0x7f80_0000 ==> !a.is_nan(),
        0x8000_0000 <= a.bits <= 0xff80_0000 && 0x8000_0000 <= b.bits <= 0xff80_0000 ==> a.reaches(b)
            == (a.bits <= b.bits),
        a.reaches(b) ==> a.key() >= b.key(),
{
}

/// Numbers that are not negative go by their bits, and negative ones by their bits turned around.
pub proof fn law_numbers_are_ordered_by_size(a: Number, b: Number)
    ensures
        a.bits < 0x8000_0000_0000_0000 && b.bits < 0x8000_0000_0000_0000 ==> (a.key() < b.key()) == (
        a.bits < b.bits),
        a.bits > 0x8000_0000_0000_0000 && b.bits < 0x8000_0000_0000_0000 ==> a.key() < b.key(),
        a.bits >= 0x8000_0000_0000_0000 && b.bits >= 0x8000_0000_0000_0000 ==> (a.key() < b.key())
            == (a.bits > b.bits),
{
}

} // verus!
