//! Finite and special double-precision scores, compared without arithmetic.
//!
//! Ranking thresholds and probabilities are only ever compared and carried
//! through. A score is therefore held as its IEEE 754 binary64 bit pattern.
use vstd::prelude::*;

verus! {

/// A binary64 value by its bit pattern.
#[derive(Clone, Copy, Debug, PartialEq, Eq, Structural)]
pub struct Score {
    pub bits: u64,
}

/// The bit that carries the sign.
pub const SIGN_BIT: u64 = 0x8000_0000_0000_0000;

/// The magnitude of both infinities; a larger magnitude is not a number.
pub const INFINITE_MAGNITUDE: u64 = 0x7ff0_0000_0000_0000;

impl Score {
    /// Exponent and fraction bits: the pattern without its sign.
    pub open spec fn magnitude(self) -> int {
        if self.bits >= SIGN_BIT {
            self.bits - SIGN_BIT
        } else {
            self.bits as int
        }
    }

    pub open spec fn is_nan_spec(self) -> bool {
        self.magnitude() > INFINITE_MAGNITUDE
    }

    pub open spec fn is_finite_spec(self) -> bool {
        self.magnitude() < INFINITE_MAGNITUDE
    }

    /// A number that orders all patterns, the signed zeros and the NaNs apart.
    pub open spec fn total_rank(self) -> int {
        if self.bits >= SIGN_BIT {
            -self.magnitude() - 1
        } else {
            self.magnitude()
        }
    }

    /// A number that orders as the represented value does: binary64 patterns
    /// of one sign order by magnitude, and both zeros share the rank zero.
    pub open spec fn rank(self) -> int {
        if self.bits >= SIGN_BIT {
            -self.magnitude()
        } else {
            self.magnitude()
        }
    }

    /// `self < other` on the represented values: false when either is NaN.
    pub open spec fn lt_spec(self, other: Score) -> bool {
        !self.is_nan_spec() && !other.is_nan_spec() && self.rank() < other.rank()
    }

    /// `self >= other` on the represented values: false when either is NaN.
    pub open spec fn ge_spec(self, other: Score) -> bool {
        !self.is_nan_spec() && !other.is_nan_spec() && self.rank() >= other.rank()
    }

    /// `self == other` on the represented values: false when either is NaN.
    pub open spec fn same_value_spec(self, other: Score) -> bool {
        !self.is_nan_spec() && !other.is_nan_spec() && self.rank() == other.rank()
    }

    fn exec_rank(self) -> (r: i128)
        ensures
            r == self.rank(),
    {
        if self.bits >= SIGN_BIT {
            -((self.bits - SIGN_BIT) as i128)
        } else {
            self.bits as i128
        }
    }

    pub fn is_nan(self) -> (nan: bool)
        ensures
            nan == self.is_nan_spec(),
    {
        if self.bits >= SIGN_BIT {
            self.bits - SIGN_BIT > INFINITE_MAGNITUDE
        } else {
            self.bits > INFINITE_MAGNITUDE
        }
    }

    pub fn is_finite(self) -> (finite: bool)
        ensures
            finite == self.is_finite_spec(),
    {
        if self.bits >= SIGN_BIT {
            self.bits - SIGN_BIT < INFINITE_MAGNITUDE
        } else {
            self.bits < INFINITE_MAGNITUDE
        }
    }

    /// Does the pattern stand at or above another in the total order?
    pub fn totally_at_least(self, other: Score) -> (r: bool)
        ensures
            r == (self.total_rank() >= other.total_rank()),
    {
        if self.bits >= SIGN_BIT {
            other.bits >= SIGN_BIT && self.bits <= other.bits
        } else {
            other.bits >= SIGN_BIT || self.bits >= other.bits
        }
    }

    pub fn less_than(self, other: Score) -> (r: bool)
        ensures
            r == self.lt_spec(other),
    {
        !self.is_nan() && !other.is_nan() && self.exec_rank() < other.exec_rank()
    }

    pub fn at_least(self, other: Score) -> (r: bool)
        ensures
            r == self.ge_spec(other),
    {
        !self.is_nan() && !other.is_nan() && self.exec_rank() >= other.exec_rank()
    }

    pub fn same_value(self, other: Score) -> (r: bool)
        ensures
            r == self.same_value_spec(other),
    {
        !self.is_nan() && !other.is_nan() && self.exec_rank() == other.exec_rank()
    }
}

/// Of two scores that are numbers, exactly one of `<` and `>=` holds; with a
/// NaN neither does.
pub proof fn comparison_is_total_on_numbers(a: Score, b: Score)
    ensures
        !a.is_nan_spec() && !b.is_nan_spec() ==> (a.lt_spec(b) <==> !a.ge_spec(b)),
        a.is_nan_spec() || b.is_nan_spec() ==> !a.lt_spec(b) && !a.ge_spec(b),
{
}

} // verus!
