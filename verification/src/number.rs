//! Single-precision numbers, held by their bit patterns.

use core::cmp::Ordering;
use vstd::prelude::*;

verus! {

/// The pattern of positive infinity; a magnitude above it is a NaN.
pub const INFINITY_BITS: u32 = 0x7F80_0000;

/// The sign bit of a pattern.
pub const SIGN_BIT: u32 = 0x8000_0000;

/// A single-precision number, held by its IEEE 754 bit pattern. Usages and
/// percentages are measured and printed elsewhere; here they are only ordered
/// and compared with fixed limits, for which the pattern is enough.
#[derive(Debug, Clone, Copy, PartialEq, Eq, Structural)]
pub struct Single {
    pub bits: u32,
}

impl Single {
    /// The pattern without its sign.
    pub open spec fn magnitude(self) -> int {
        if self.bits < SIGN_BIT {
            self.bits as int
        } else {
            self.bits - SIGN_BIT
        }
    }

    /// Whether the pattern stands for no number.
    pub open spec fn nan(self) -> bool {
        self.magnitude() > INFINITY_BITS
    }

    /// The place of the pattern among all patterns, NaNs included: negative
    /// patterns come first, the larger magnitude before the smaller, then the
    /// positive ones by magnitude. Negative zero stands just below zero.
    pub open spec fn total_place(self) -> int {
        if self.bits < SIGN_BIT {
            self.magnitude()
        } else {
            -1 - self.magnitude()
        }
    }

    /// The place of the number among the numbers: both zeros share one place.
    pub open spec fn place(self) -> int {
        if self.bits < SIGN_BIT {
            self.magnitude()
        } else {
            -self.magnitude()
        }
    }

    /// The numeric `<`: false as soon as one side is a NaN.
    pub open spec fn lt(self, other: Single) -> bool {
        !self.nan() && !other.nan() && self.place() < other.place()
    }

    /// The number with the given bit pattern.
    pub fn from_bits(bits: u32) -> (res: Single)
        ensures
            res.bits == bits,
    {
        Single { bits }
    }

    /// Whether the pattern stands for no number.
    pub fn is_nan(self) -> (res: bool)
        ensures
            res == self.nan(),
    {
        if self.bits < SIGN_BIT {
            self.bits > INFINITY_BITS
        } else {
            self.bits - SIGN_BIT > INFINITY_BITS
        }
    }

    /// The place of the pattern in the total order of all patterns.
    pub fn total_key(self) -> (res: i64)
        ensures
            res == self.total_place(),
    {
        if self.bits < SIGN_BIT {
            self.bits as i64
        } else {
            -1 - (self.bits - SIGN_BIT) as i64
        }
    }

    /// The numeric `<`.
    pub fn less_than(self, other: Single) -> (res: bool)
        ensures
            res == self.lt(other),
    {
        let a: i64 = if self.bits < SIGN_BIT {
            self.bits as i64
        } else {
            -((self.bits - SIGN_BIT) as i64)
        };
        let b: i64 = if other.bits < SIGN_BIT {
            other.bits as i64
        } else {
            -((other.bits - SIGN_BIT) as i64)
        };
        !self.is_nan() && !other.is_nan() && a < b
    }

    /// The order of two patterns in the total order.
    pub fn total_order(self, other: Single) -> (res: Ordering)
        ensures
            res == order_of(self.total_place(), other.total_place()),
    {
        let a: i64 = self.total_key();
        let b: i64 = other.total_key();
        if a < b {
            Ordering::Less
        } else if a == b {
            Ordering::Equal
        } else {
            Ordering::Greater
        }
    }
}

impl Default for Single {
    /// Zero.
    fn default() -> (res: Single)
        ensures
            res.bits == 0,
    {
        Single { bits: 0 }
    }
}

/// The order of two integers.
pub open spec fn order_of(a: int, b: int) -> Ordering {
    if a < b {
        Ordering::Less
    } else if a == b {
        Ordering::Equal
    } else {
        Ordering::Greater
    }
}

/// The total order tells every two patterns apart: only a pattern is its own equal.
pub proof fn total_order_is_strict(a: Single, b: Single)
    ensures
        (order_of(a.total_place(), b.total_place()) == Ordering::Equal) == (a == b),
{
}

/// Among numbers, `<` never contradicts the total order.
pub proof fn less_than_agrees_with_total_order(a: Single, b: Single)
    requires
        a.lt(b),
    ensures
        a.total_place() < b.total_place(),
{
}

/// The total order goes by the patterns. Of two with a clear sign bit the smaller comes
/// first, of two with a set one the larger, and a set sign bit comes before a clear one.
pub proof fn the_total_order_goes_by_the_patterns(a: Single, b: Single, res: Ordering)
    requires
        call_ensures(Single::total_order, (a, b), res),
    ensures
        a.bits < 0x8000_0000 && b.bits < 0x8000_0000 ==> {
            &&& (res is Less) == (a.bits < b.bits)
            &&& (res is Greater) == (a.bits > b.bits)
        },
        a.bits >= 0x8000_0000 && b.bits >= 0x8000_0000 ==> {
            &&& (res is Less) == (a.bits > b.bits)
            &&& (res is Greater) == (a.bits < b.bits)
        },
        a.bits >= 0x8000_0000 && b.bits < 0x8000_0000 ==> res is Less,
        a.bits < 0x8000_0000 && b.bits >= 0x8000_0000 ==> res is Greater,
        (res is Equal) == (a.bits == b.bits),
{
}

/// The key of a pattern rises as the total order does: with the patterns while the sign
/// bit is clear, against them while it is set, and it is negative there alone.
pub proof fn the_key_goes_by_the_patterns(a: Single, b: Single, x: i64, y: i64)
    requires
        call_ensures(Single::total_key, (a,), x),
        call_ensures(Single::total_key, (b,), y),
    ensures
        (x < 0) == (a.bits >= 0x8000_0000),
        a.bits < 0x8000_0000 && b.bits < 0x8000_0000 ==> (x < y) == (a.bits < b.bits),
        a.bits >= 0x8000_0000 && b.bits >= 0x8000_0000 ==> (x < y) == (a.bits > b.bits),
{
}

/// What is no number lies above infinity, on either side.
pub proof fn what_is_no_number(a: Single, res: bool)
    requires
        call_ensures(Single::is_nan, (a,), res),
    ensures
        res == (0x7F80_0000 < a.bits < 0x8000_0000 || 0xFF80_0000 < a.bits),
{
}

/// Of numbers, the one with the smaller pattern is less while both are not negative, and
/// the one with the larger while both are. A negative number is less than another, but
/// for the two zeros. What is no number is neither less nor more.
pub proof fn less_than_goes_by_the_patterns(a: Single, b: Single, res: bool)
    requires
        call_ensures(Single::less_than, (a, b), res),
    ensures
        a.bits <= 0x7F80_0000 && b.bits <= 0x7F80_0000 ==> res == (a.bits < b.bits),
        0x8000_0000 <= a.bits <= 0xFF80_0000 && 0x8000_0000 <= b.bits <= 0xFF80_0000 ==> res == (
        a.bits > b.bits),
        0x8000_0000 <= a.bits <= 0xFF80_0000 && b.bits <= 0x7F80_0000 ==> res == !(a.bits
            == 0x8000_0000 && b.bits == 0),
        a.bits <= 0x7F80_0000 && 0x8000_0000 <= b.bits ==> !res,
        0x7F80_0000 < a.bits < 0x8000_0000 || 0xFF80_0000 < a.bits ==> !res,
        0x7F80_0000 < b.bits < 0x8000_0000 || 0xFF80_0000 < b.bits ==> !res,
{
}

} // verus!
