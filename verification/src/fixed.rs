//! Decimal numbers with six fractional digits.

use vstd::prelude::*;

verus! {

/// How many units of a [`Fixed`] make one whole.
pub const SCALE: i64 = 1_000_000;

/// A decimal number held as a count of millionths.
///
/// Degrees and pixels are both measured with it. The view of a value is its
/// count of millionths as a mathematical integer.
#[derive(Clone, Copy, Debug, PartialEq, Eq, Structural)]
pub struct Fixed {
    pub micros: i64,
}

impl View for Fixed {
    type V = int;

    open spec fn view(&self) -> int {
        self.micros as int
    }
}

/// The nearest count of millionths that a [`Fixed`] can hold.
pub open spec fn saturated(v: int) -> int {
    if v < i64::MIN {
        i64::MIN as int
    } else if v > i64::MAX {
        i64::MAX as int
    } else {
        v
    }
}

/// `v` brought into the closed interval from `lo` to `hi`.
pub open spec fn clamped(v: int, lo: int, hi: int) -> int {
    if v < lo {
        lo
    } else if v > hi {
        hi
    } else {
        v
    }
}

/// A tenth of `v`, rounded toward zero.
pub open spec fn tenth(v: int) -> int {
    if v >= 0 {
        v / 10
    } else {
        -((-v) / 10)
    }
}

impl Fixed {
    /// The value nearest to `v` millionths.
    pub open spec fn nearest(v: int) -> Fixed {
        Fixed { micros: saturated(v) as i64 }
    }

    /// The value that counts `micros` millionths.
    pub fn from_micros(micros: i64) -> (r: Fixed)
        ensures
            r@ == micros,
    {
        Fixed { micros }
    }

    /// The whole number `units`.
    pub fn from_whole(units: i32) -> (r: Fixed)
        ensures
            r@ == units * SCALE,
    {
        let wide: i64 = units as i64;
        Fixed { micros: wide * SCALE }
    }

    /// The count of millionths.
    pub fn micros(&self) -> (m: i64)
        ensures
            m == self@,
    {
        self.micros
    }

    /// The sum of two values, held at the nearest representable value when
    /// the exact sum is out of range.
    pub fn saturating_add(self, other: Fixed) -> (r: Fixed)
        ensures
            r@ == saturated(self@ + other@),
    {
        match self.micros.checked_add(other.micros) {
            Some(sum) => Fixed { micros: sum },
            None => if other.micros < 0 {
                Fixed { micros: i64::MIN }
            } else {
                Fixed { micros: i64::MAX }
            },
        }
    }

    /// The difference of two values, held at the nearest representable value
    /// when the exact difference is out of range.
    pub fn saturating_sub(self, other: Fixed) -> (r: Fixed)
        ensures
            r@ == saturated(self@ - other@),
    {
        match self.micros.checked_sub(other.micros) {
            Some(diff) => Fixed { micros: diff },
            None => if other.micros > 0 {
                Fixed { micros: i64::MIN }
            } else {
                Fixed { micros: i64::MAX }
            },
        }
    }

    /// A tenth of the value, rounded toward zero.
    pub fn tenth(self) -> (r: Fixed)
        ensures
            r@ == tenth(self@),
    {
        Fixed { micros: self.micros / 10 }
    }
}

} // verus!
