use vstd::prelude::*;

verus! {

/// The numbers a network computes with, and the operations it needs on them.
///
/// Each operation is a function of its arguments alone, named by a spec
/// function of the same trait; the engine's contracts are stated over those
/// names. The one exception is `random`, a fresh draw on every call.
pub trait Scalar: Copy + Sized {
    spec fn spec_zero() -> Self;

    spec fn spec_one() -> Self;

    spec fn spec_from_count(n: usize) -> Self;

    spec fn spec_plus(self, other: Self) -> Self;

    spec fn spec_minus(self, other: Self) -> Self;

    spec fn spec_times(self, other: Self) -> Self;

    spec fn spec_over(self, other: Self) -> Self;

    spec fn spec_negate(self) -> Self;

    spec fn spec_larger(self, other: Self) -> Self;

    spec fn spec_exp(self) -> Self;

    spec fn spec_ln(self) -> Self;

    spec fn spec_to_bits(self) -> u64;

    spec fn spec_to_byte(self) -> u8;

    /// The additive identity.
    fn zero() -> (r: Self)
        ensures
            r == Self::spec_zero(),
    ;

    /// The multiplicative identity.
    fn one() -> (r: Self)
        ensures
            r == Self::spec_one(),
    ;

    /// The number `n`.
    fn from_count(n: usize) -> (r: Self)
        ensures
            r == Self::spec_from_count(n),
    ;

    /// A draw from the uniform distribution on `[0, 1)`.
    fn random() -> Self;

    fn plus(self, other: Self) -> (r: Self)
        ensures
            r == self.spec_plus(other),
    ;

    fn minus(self, other: Self) -> (r: Self)
        ensures
            r == self.spec_minus(other),
    ;

    fn times(self, other: Self) -> (r: Self)
        ensures
            r == self.spec_times(other),
    ;

    fn over(self, other: Self) -> (r: Self)
        ensures
            r == self.spec_over(other),
    ;

    fn negate(self) -> (r: Self)
        ensures
            r == self.spec_negate(),
    ;

    /// The larger of the two.
    fn larger(self, other: Self) -> (r: Self)
        ensures
            r == self.spec_larger(other),
    ;

    /// `e` raised to this number.
    fn exp(self) -> (r: Self)
        ensures
            r == self.spec_exp(),
    ;

    /// The natural logarithm.
    fn ln(self) -> (r: Self)
        ensures
            r == self.spec_ln(),
    ;

    /// The IEEE-754 double nearest to this number, as its bit pattern.
    fn to_bits(self) -> (r: u64)
        ensures
            r == self.spec_to_bits(),
    ;

    /// This number truncated towards zero into a byte, saturating at both ends.
    fn to_byte(self) -> (r: u8)
        ensures
            r == self.spec_to_byte(),
    ;
}

} // verus!
