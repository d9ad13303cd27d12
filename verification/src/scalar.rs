use vstd::prelude::*;

verus! {

/// The numeric scalar that matrices and networks are built over.
///
/// The engine itself is agnostic to the concrete number type: every
/// arithmetic step it performs is one of the three ring operations below
/// (plus the zero element used to seed dot-product accumulation).  Each
/// executable operation is pinned to its own specification function, so
/// everything the network computes is a mathematical function of its
/// inputs for any conforming scalar type.
pub trait Scalar: Sized + Copy {
    /// The additive identity, as a specification-level value.
    spec fn zero_spec() -> Self;

    /// What `add` returns, as a specification-level function.
    spec fn add_spec(self, other: Self) -> Self;

    /// What `sub` returns, as a specification-level function.
    spec fn sub_spec(self, other: Self) -> Self;

    /// What `mul` returns, as a specification-level function.
    spec fn mul_spec(self, other: Self) -> Self;

    /// Whether `is_positive` holds, as a specification-level predicate.
    spec fn is_positive_spec(self) -> bool;

    /// The additive identity.
    fn zero() -> (r: Self)
        ensures
            r == Self::zero_spec(),
    ;

    /// Whether this scalar is strictly positive, as a step size must be.
    fn is_positive(self) -> (r: bool)
        ensures
            r == self.is_positive_spec(),
    ;

    /// Whether two scalars are the same value.
    fn equals(self, other: Self) -> (r: bool)
        ensures
            r == (self == other),
    ;

    /// Scalar addition.
    fn add(self, other: Self) -> (r: Self)
        ensures
            r == self.add_spec(other),
    ;

    /// Scalar subtraction.
    fn sub(self, other: Self) -> (r: Self)
        ensures
            r == self.sub_spec(other),
    ;

    /// Scalar multiplication.
    fn mul(self, other: Self) -> (r: Self)
        ensures
            r == self.mul_spec(other),
    ;
}

/// Clamps a mathematical integer into the `i64` range.
pub open spec fn clamp_i64(v: int) -> i64 {
    if v > i64::MAX {
        i64::MAX
    } else if v < i64::MIN {
        i64::MIN
    } else {
        v as i64
    }
}

fn clamp_i64_exec(v: i128) -> (r: i64)
    ensures
        r == clamp_i64(v as int),
{
    if v > i64::MAX as i128 {
        i64::MAX
    } else if v < i64::MIN as i128 {
        i64::MIN
    } else {
        v as i64
    }
}

/// Saturating 64-bit integers as a ready-made scalar instance: every
/// operation clamps its mathematical result into the `i64` range, so no
/// operation can overflow.
impl Scalar for i64 {
    open spec fn zero_spec() -> i64 {
        0
    }

    open spec fn add_spec(self, other: i64) -> i64 {
        clamp_i64(self + other)
    }

    open spec fn sub_spec(self, other: i64) -> i64 {
        clamp_i64(self - other)
    }

    open spec fn mul_spec(self, other: i64) -> i64 {
        clamp_i64(self * other)
    }

    open spec fn is_positive_spec(self) -> bool {
        self > 0
    }

    fn zero() -> (r: i64) {
        0
    }

    fn is_positive(self) -> (r: bool) {
        self > 0
    }

    fn equals(self, other: i64) -> (r: bool) {
        self == other
    }

    fn add(self, other: i64) -> (r: i64) {
        clamp_i64_exec(self as i128 + other as i128)
    }

    fn sub(self, other: i64) -> (r: i64) {
        clamp_i64_exec(self as i128 - other as i128)
    }

    fn mul(self, other: i64) -> (r: i64) {
        proof {
            assert(i128::MIN <= self * other <= i128::MAX) by (nonlinear_arith)
                requires
                    i64::MIN <= self <= i64::MAX,
                    i64::MIN <= other <= i64::MAX,
            ;
        }
        clamp_i64_exec(self as i128 * other as i128)
    }
}

/// A source of scalars for weight and bias initialization.  Nothing is
/// promised about the values handed out: every caller's contract holds
/// for every possible outcome.
pub trait RandomSource<T> {
    /// Draws the next scalar from the source.
    fn next_scalar(&mut self) -> T;
}

/// A small deterministic linear congruential generator, usable as a
/// default `RandomSource` for the saturating `i64` scalar.  It hands out
/// values spread over a fixed symmetric range.
pub struct Lcg {
    pub state: u64,
}

impl Lcg {
    /// Creates a generator from a seed.
    pub fn new(seed: u64) -> (r: Lcg) {
        Lcg { state: seed }
    }
}

impl RandomSource<i64> for Lcg {
    fn next_scalar(&mut self) -> (r: i64) {
        let s = (self.state % 2147483648) * 1103515245 + 12345;
        self.state = s % 2147483648;
        (self.state % 2001) as i64 - 1000
    }
}

} // verus!
