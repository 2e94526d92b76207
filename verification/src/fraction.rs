//! Fractions in `[0, 1)` held in 32-bit fixed point.

use vstd::prelude::*;

verus! {

/// The denominator of every [`Fraction`]: `2^32`.
pub const FRACTION_DENOMINATOR: u64 = 0x1_0000_0000;

/// A fraction in `[0, 1)`: the value is `bits / 2^32`.
///
/// Gene positions and mutation probabilities are fractions; a position is
/// turned into a cell offset with [`Fraction::scale`].
#[derive(Clone, Copy, PartialEq, Eq, Structural, Debug)]
pub struct Fraction {
    pub bits: u32,
}

impl Fraction {
    /// `floor(self * length)`, the offset that this fraction picks within
    /// `length` consecutive cells.
    pub open spec fn scaled(self, length: int) -> int {
        (self.bits as int * length) / (FRACTION_DENOMINATOR as int)
    }

    /// The fraction `bits / 2^32`.
    pub fn from_bits(bits: u32) -> (f: Fraction)
        ensures
            f.bits == bits,
    {
        Fraction { bits }
    }

    /// The largest fraction that is at most `numerator / denominator`.
    pub fn from_ratio(numerator: u32, denominator: u32) -> (f: Fraction)
        requires
            numerator < denominator,
        ensures
            f.bits as int == (numerator as int * (FRACTION_DENOMINATOR as int)) / (denominator as int),
    {
        proof {
            lemma_quotient_below(
                numerator as int,
                FRACTION_DENOMINATOR as int,
                denominator as int,
            );
            lemma_product_fits(numerator as int, FRACTION_DENOMINATOR as int);
        }
        let shifted: u64 = (numerator as u64) * FRACTION_DENOMINATOR;
        let quotient: u64 = shifted / (denominator as u64);
        Fraction { bits: quotient as u32 }
    }

    /// `floor(self * length)`, which lies below `length` whenever `length`
    /// is positive.
    pub fn scale(&self, length: u32) -> (offset: u32)
        ensures
            offset as int == self.scaled(length as int),
            length > 0 ==> offset < length,
            length == 0 ==> offset == 0,
    {
        proof {
            lemma_quotient_below(self.bits as int, length as int, FRACTION_DENOMINATOR as int);
            lemma_product_fits(self.bits as int, length as int);
        }
        let product: u64 = (self.bits as u64) * (length as u64);
        let quotient: u64 = product / FRACTION_DENOMINATOR;
        quotient as u32
    }

    /// Whether this fraction is strictly below `other`.
    pub fn less_than(&self, other: &Fraction) -> (below: bool)
        ensures
            below == (self.bits < other.bits),
    {
        self.bits < other.bits
    }
}

/// For `0 <= a < c` and `b >= 0`, the quotient `(a * b) / c` is below `b`
/// unless `b` is zero, and never exceeds it.
pub proof fn lemma_quotient_below(a: int, b: int, c: int)
    by (nonlinear_arith)
    requires
        0 <= a < c,
        0 <= b,
    ensures
        0 <= (a * b) / c <= b,
        b > 0 ==> (a * b) / c < b,
        0 <= a * b <= c * b,
{
}

/// The product of a 32-bit value and a value of at most `2^32` fits in 64
/// bits.
pub proof fn lemma_product_fits(a: int, b: int)
    by (nonlinear_arith)
    requires
        0 <= a <= 0xFFFF_FFFF,
        0 <= b <= 0x1_0000_0000,
    ensures
        0 <= a * b <= 0xFFFF_FFFF_0000_0000,
        b == 0 ==> a * b == 0,
{
}

} // verus!
