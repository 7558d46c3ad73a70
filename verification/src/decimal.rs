//! Fixed-point decimal arithmetic for prices and share quantities.
//!
//! A `Decimal` stores a signed number of millionths (six fractional decimal
//! digits), which is exactly the unit the settlement layer serializes fills
//! in.  Addition, subtraction and comparison are exact; the product of two
//! amounts is held exactly, with twelve fractional digits, in a
//! [`ProductDecimal`].

use vstd::prelude::*;

verus! {

/// Units per whole number: every `Decimal` holds a count of millionths.
pub const DECIMAL_SCALE: i128 = 1_000_000;

/// A signed fixed-point decimal with six fractional digits.
///
/// The mathematical value is `self@ / 1_000_000`; all contracts in this
/// crate speak in units (millionths), i.e. directly about `self@`.
#[derive(Clone, Copy, Debug, PartialEq, Eq, Structural, Hash)]
pub struct Decimal {
    pub units: i128,
}

impl View for Decimal {
    type V = int;

    open spec fn view(&self) -> int {
        self.units as int
    }
}

/// Sum of two non-negative unit counts, clamped to the largest
/// representable value.
pub open spec fn clamped_sum(a: int, b: int) -> int {
    if a + b > i128::MAX as int {
        i128::MAX as int
    } else {
        a + b
    }
}

/// Product of two non-negative unit counts, in trillionths (twelve
/// fractional digits): exactly `a * b`, clamped only to the largest
/// representable value.
pub open spec fn clamped_product(a: int, b: int) -> int {
    if a * b > i128::MAX as int {
        i128::MAX as int
    } else {
        a * b
    }
}

/// The exact product of two `Decimal` amounts, stored as a signed count of
/// trillionths (twelve fractional decimal digits): the product of two
/// six-digit amounts needs no more, so no precision is lost.
#[derive(Clone, Copy, Debug, PartialEq, Eq, Structural, Hash)]
pub struct ProductDecimal {
    pub units: i128,
}

impl View for ProductDecimal {
    type V = int;

    open spec fn view(&self) -> int {
        self.units as int
    }
}

impl ProductDecimal {
    /// The value holding `units` trillionths.
    pub fn from_units(units: i128) -> (r: ProductDecimal)
        ensures
            r@ == units,
    {
        ProductDecimal { units }
    }

    /// The number of trillionths held.
    pub fn units(&self) -> (r: i128)
        ensures
            r == self@,
    {
        self.units
    }
}

impl Decimal {
    /// The value holding `units` millionths.
    pub fn from_units(units: i128) -> (r: Decimal)
        ensures
            r@ == units,
    {
        Decimal { units }
    }

    /// The value zero.
    pub fn zero() -> (r: Decimal)
        ensures
            r@ == 0,
    {
        Decimal { units: 0 }
    }

    /// The number of millionths held.
    pub fn units(&self) -> (r: i128)
        ensures
            r == self@,
    {
        self.units
    }

    pub fn is_zero(&self) -> (r: bool)
        ensures
            r == (self@ == 0),
    {
        self.units == 0
    }

    pub fn is_positive(&self) -> (r: bool)
        ensures
            r == (self@ > 0),
    {
        self.units > 0
    }

    pub fn lt(&self, other: &Decimal) -> (r: bool)
        ensures
            r == (self@ < other@),
    {
        self.units < other.units
    }

    pub fn le(&self, other: &Decimal) -> (r: bool)
        ensures
            r == (self@ <= other@),
    {
        self.units <= other.units
    }

    pub fn gt(&self, other: &Decimal) -> (r: bool)
        ensures
            r == (self@ > other@),
    {
        self.units > other.units
    }

    pub fn ge(&self, other: &Decimal) -> (r: bool)
        ensures
            r == (self@ >= other@),
    {
        self.units >= other.units
    }

    /// Exact sum; the caller must know it is representable.
    pub fn plus(&self, other: &Decimal) -> (r: Decimal)
        requires
            i128::MIN <= self@ + other@ <= i128::MAX,
        ensures
            r@ == self@ + other@,
    {
        Decimal { units: self.units + other.units }
    }

    /// Exact difference; the caller must know it is representable.
    pub fn minus(&self, other: &Decimal) -> (r: Decimal)
        requires
            i128::MIN <= self@ - other@ <= i128::MAX,
        ensures
            r@ == self@ - other@,
    {
        Decimal { units: self.units - other.units }
    }

    /// The smaller of two values.
    pub fn min_of(&self, other: &Decimal) -> (r: Decimal)
        ensures
            r@ == if self@ <= other@ { self@ } else { other@ },
    {
        if self.units <= other.units {
            Decimal { units: self.units }
        } else {
            Decimal { units: other.units }
        }
    }

    /// Sum of two non-negative values, clamped at the representation limit.
    pub fn plus_clamped(&self, other: &Decimal) -> (r: Decimal)
        requires
            self@ >= 0,
            other@ >= 0,
        ensures
            r@ == clamped_sum(self@, other@),
    {
        match self.units.checked_add(other.units) {
            Some(units) => Decimal { units },
            None => Decimal { units: i128::MAX },
        }
    }

    /// Exact product of two non-negative values, with twelve fractional
    /// digits; clamped only past the representation limit.
    pub fn times_exact(&self, other: &Decimal) -> (r: ProductDecimal)
        requires
            self@ >= 0,
            other@ >= 0,
        ensures
            r@ == clamped_product(self@, other@),
    {
        match self.units.checked_mul(other.units) {
            Some(product) => ProductDecimal { units: product },
            None => ProductDecimal { units: i128::MAX },
        }
    }
}

} // verus!
