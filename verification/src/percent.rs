use vstd::prelude::*;

verus! {

/// An exact percentage `num / den`, kept as a ratio so that core means and
/// usage fractions are represented without any rounding.
#[derive(Clone, Copy, Debug, PartialEq, Eq, Structural)]
pub struct Percent {
    pub num: u128,
    pub den: u128,
}

impl Percent {
    /// Every percentage the library builds keeps its denominator positive
    /// (the value is well defined) and no larger than `u64::MAX` (threshold
    /// comparisons cannot overflow).
    pub open spec fn wf(self) -> bool {
        0 < self.den <= u64::MAX
    }

    /// Exactly zero percent, the value used wherever a denominator of a
    /// usage fraction would otherwise be zero.
    pub fn zero() -> (r: Percent)
        ensures
            r == (Percent { num: 0, den: 1 }),
            r.wf(),
    {
        Percent { num: 0, den: 1 }
    }

    /// The share `part / whole` expressed in percent, and exactly zero when
    /// `whole` is zero.
    pub fn of_ratio(part: u64, whole: u64) -> (r: Percent)
        ensures
            whole == 0 ==> r == (Percent { num: 0, den: 1 }),
            whole > 0 ==> r.num == 100 * part && r.den == whole,
            r.wf(),
    {
        if whole == 0 {
            Percent { num: 0, den: 1 }
        } else {
            Percent { num: 100u128 * (part as u128), den: whole as u128 }
        }
    }

    /// The mean of `count` summands whose sum is `total`, and exactly zero
    /// when `count` is zero.
    pub fn of_mean(total: u128, count: usize) -> (r: Percent)
        ensures
            count == 0 ==> r == (Percent { num: 0, den: 1 }),
            count > 0 ==> r.num == total && r.den == count,
            r.wf(),
    {
        if count == 0 {
            Percent { num: 0, den: 1 }
        } else {
            Percent { num: total, den: count as u128 }
        }
    }

    /// Whether the percentage strictly exceeds `threshold` whole percent.
    pub fn exceeds(&self, threshold: u64) -> (r: bool)
        requires
            self.wf(),
        ensures
            r == (self.num > threshold * self.den),
    {
        proof {
            assert((threshold as u128) * self.den <= u128::MAX) by (nonlinear_arith)
                requires
                    threshold <= u64::MAX,
                    self.den <= u64::MAX,
            ;
        }
        self.num > (threshold as u128) * self.den
    }
}

} // verus!
