//! Fractions in thousandths, used wherever a layout divides a length.

use vstd::prelude::*;

verus! {

/// How many thousandths make up the whole.
pub const MILLIS_PER_UNIT: i32 = 1000;

/// A fraction counted in thousandths: `Ratio { millis: 500 }` is one half.
///
/// Any `i32` can be held; the fractions that a split accepts are those
/// between zero and one, see [`Ratio::in_unit`].
#[derive(Debug, Clone, Copy, PartialEq, Eq, Hash, Structural)]
pub struct Ratio {
    pub millis: i32,
}

impl Ratio {
    /// Whether the fraction lies in the closed interval from zero to one.
    pub open spec fn in_unit(self) -> bool {
        0 <= self.millis <= MILLIS_PER_UNIT
    }

    /// The fraction of `len`, rounded down.
    pub open spec fn scaled(self, len: int) -> int {
        len * self.millis / (MILLIS_PER_UNIT as int)
    }

    /// The fraction plus `step`, but no more than one.
    pub open spec fn spec_raised_by(self, step: Ratio) -> Ratio {
        if self.millis + step.millis > MILLIS_PER_UNIT {
            Ratio { millis: MILLIS_PER_UNIT }
        } else {
            Ratio { millis: (self.millis + step.millis) as i32 }
        }
    }

    /// The fraction minus `step`, but no less than zero.
    pub open spec fn spec_lowered_by(self, step: Ratio) -> Ratio {
        if self.millis - step.millis < 0 {
            Ratio { millis: 0 }
        } else {
            Ratio { millis: (self.millis - step.millis) as i32 }
        }
    }

    /// The fraction of `millis` thousandths.
    pub fn from_millis(millis: i32) -> (r: Ratio)
        ensures
            r.millis == millis,
    {
        Ratio { millis }
    }

    /// The number of thousandths.
    pub fn millis(&self) -> (m: i32)
        ensures
            m == self.millis,
    {
        self.millis
    }

    /// Whether the fraction lies between zero and one, both included.
    pub fn is_in_unit(&self) -> (b: bool)
        ensures
            b == self.in_unit(),
    {
        0 <= self.millis && self.millis <= MILLIS_PER_UNIT
    }

    /// The fraction of `len`, rounded down. It never exceeds `len`.
    pub fn of(&self, len: u32) -> (part: u32)
        requires
            self.in_unit(),
        ensures
            part == self.scaled(len as int),
            part <= len,
    {
        proof {
            lemma_scaled_bounds(*self, len as int);
        }
        let product: u64 = (len as u64) * (self.millis as u64);
        (product / 1000) as u32
    }

    /// Adds `step` and clamps the sum to one.
    pub fn raised_by(&self, step: Ratio) -> (r: Ratio)
        requires
            self.millis + step.millis >= i32::MIN,
        ensures
            r == self.spec_raised_by(step),
    {
        let sum: i64 = self.millis as i64 + step.millis as i64;
        if sum > 1000 {
            Ratio { millis: MILLIS_PER_UNIT }
        } else {
            Ratio { millis: sum as i32 }
        }
    }

    /// Subtracts `step` and clamps the difference to zero.
    pub fn lowered_by(&self, step: Ratio) -> (r: Ratio)
        requires
            self.millis - step.millis <= i32::MAX,
        ensures
            r == self.spec_lowered_by(step),
    {
        let difference: i64 = self.millis as i64 - step.millis as i64;
        if difference < 0 {
            Ratio { millis: 0 }
        } else {
            Ratio { millis: difference as i32 }
        }
    }
}

/// A fraction between zero and one of a length lies between zero and that
/// length.
pub proof fn lemma_scaled_bounds(p: Ratio, len: int)
    requires
        p.in_unit(),
        0 <= len,
    ensures
        0 <= p.scaled(len) <= len,
        p.millis == 0 ==> p.scaled(len) == 0,
        p.millis == MILLIS_PER_UNIT ==> p.scaled(len) == len,
{
    let m = p.millis as int;
    assert(0 <= len * m <= len * 1000) by (nonlinear_arith)
        requires
            0 <= m <= 1000,
            0 <= len,
    ;
    assert(m == 0 ==> len * m == 0) by (nonlinear_arith);
    assert(m == 1000 ==> len * m == len * 1000) by (nonlinear_arith);
}

/// Raising a fraction of the unit interval by a step that is not negative
/// keeps it there, and so does lowering it.
pub proof fn lemma_adjusted_stays_in_unit(p: Ratio, step: Ratio)
    requires
        p.in_unit(),
        step.millis >= 0,
    ensures
        p.spec_raised_by(step).in_unit(),
        p.spec_lowered_by(step).in_unit(),
        p.spec_raised_by(step).millis >= p.millis,
        p.spec_lowered_by(step).millis <= p.millis,
{
}

} // verus!
