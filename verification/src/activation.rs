use vstd::prelude::*;

use crate::scalar::Scalar;

verus! {

/// The pluggable activation strategy: a scalar-to-scalar forward function
/// and its derivative, applied elementwise during the forward and backward
/// passes.  Both must behave as the deterministic, total functions given
/// by their specification counterparts.
pub trait ActivationFunc<T: Scalar> {
    /// What `function` returns, as a specification-level function.
    spec fn function_spec(x: T) -> T;

    /// What `derivative` returns, as a specification-level function.
    spec fn derivative_spec(x: T) -> T;

    /// The activation applied to one scalar.
    fn function(x: T) -> (r: T)
        ensures
            r == Self::function_spec(x),
    ;

    /// The activation's derivative at one scalar.
    fn derivative(x: T) -> (r: T)
        ensures
            r == Self::derivative_spec(x),
    ;
}

/// The identity activation over the saturating `i64` scalar: the forward
/// function passes values through and its derivative is constantly one.
pub struct IdentityActivation;

impl ActivationFunc<i64> for IdentityActivation {
    open spec fn function_spec(x: i64) -> i64 {
        x
    }

    open spec fn derivative_spec(x: i64) -> i64 {
        1
    }

    fn function(x: i64) -> (r: i64) {
        x
    }

    fn derivative(x: i64) -> (r: i64) {
        1
    }
}

} // verus!
