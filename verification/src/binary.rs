//! Real numbers that are stored but not computed with, held by their bits in
//! binary64.
use vstd::prelude::*;

verus! {

/// A binary64 number, by its bits.
#[derive(Clone, Copy, Debug, PartialEq, Eq, Structural)]
pub struct Real {
    pub bits: u64,
}

/// The bits of a number without its sign.
pub open spec fn magnitude(value: Real) -> u64 {
    value.bits % 0x8000_0000_0000_0000
}

/// Whether a value is no number.
pub open spec fn is_nan(value: Real) -> bool {
    magnitude(value) > 0x7ff0_0000_0000_0000
}

/// Whether a value is a number and not infinite.
pub open spec fn finite(value: Real) -> bool {
    magnitude(value) < 0x7ff0_0000_0000_0000
}

/// Whether two values are the same number: what is no number is the same as
/// nothing, and both zeros are the same.
pub open spec fn same_real(left: Real, right: Real) -> bool {
    !is_nan(left) && !is_nan(right) && (left.bits == right.bits || (magnitude(left) == 0
        && magnitude(right) == 0))
}

/// Whether a value is a number that is not below zero.
pub open spec fn nonnegative(value: Real) -> bool {
    !is_nan(value) && (value.bits < 0x8000_0000_0000_0000 || magnitude(value) == 0)
}

/// Whether a value is a number below zero.
pub open spec fn negative(value: Real) -> bool {
    !is_nan(value) && !nonnegative(value)
}

impl Real {
    /// Whether the value is a number below zero.
    pub fn is_negative(self) -> (answer: bool)
        ensures
            answer == negative(self),
    {
        let a: u64 = self.bits % 0x8000_0000_0000_0000;
        a <= 0x7ff0_0000_0000_0000 && !self.is_nonnegative()
    }

    /// Whether the value is a number that is not below zero.
    pub fn is_nonnegative(self) -> (answer: bool)
        ensures
            answer == nonnegative(self),
    {
        let a: u64 = self.bits % 0x8000_0000_0000_0000;
        a <= 0x7ff0_0000_0000_0000 && (self.bits < 0x8000_0000_0000_0000 || a == 0)
    }

    /// Whether the value is a number and not infinite.
    pub fn is_finite(self) -> (answer: bool)
        ensures
            answer == finite(self),
    {
        self.bits % 0x8000_0000_0000_0000 < 0x7ff0_0000_0000_0000
    }

    /// Whether two values are the same number.
    pub fn same(self, other: Real) -> (answer: bool)
        ensures
            answer == same_real(self, other),
    {
        let a: u64 = self.bits % 0x8000_0000_0000_0000;
        let b: u64 = other.bits % 0x8000_0000_0000_0000;
        a <= 0x7ff0_0000_0000_0000 && b <= 0x7ff0_0000_0000_0000 && (self.bits == other.bits || (a
            == 0 && b == 0))
    }
}

/// A number is not below zero where its sign bit is clear or nothing else is set. What
/// is no number is neither, and the same as nothing; any other number is the same as
/// itself, and both zeros are the same.
pub proof fn law_reals_are_told_by_their_bits(left: Real, right: Real)
    ensures
        left.bits <= 0x7ff0_0000_0000_0000 || left.bits == 0x8000_0000_0000_0000 <==> nonnegative(
            left,
        ),
        0x8000_0000_0000_0000 < left.bits <= 0xfff0_0000_0000_0000 <==> negative(left),
        left.bits < 0x7ff0_0000_0000_0000 || 0x8000_0000_0000_0000 <= left.bits
            < 0xfff0_0000_0000_0000 <==> finite(left),
        same_real(left, right) == same_real(right, left),
        same_real(left, left) <==> nonnegative(left) || negative(left),
        same_real(left, right) && left.bits != right.bits ==> (left.bits == 0 && right.bits
            == 0x8000_0000_0000_0000) || (left.bits == 0x8000_0000_0000_0000 && right.bits == 0),
        left.bits == 0 && right.bits == 0x8000_0000_0000_0000 ==> same_real(left, right),
{
}

} // verus!
