use vstd::prelude::*;

verus! {

/// Errors of the shared helpers.
#[derive(Clone, Copy, Debug, PartialEq, Eq, Structural)]
pub enum SharedError {
    InvalidAddress,
    MathOverflow,
}

/// Yield of `base` scaled by `multiplier`, or `MathOverflow` when the product
/// does not fit in an `i128`.
pub fn calculate_yield(base: i128, multiplier: u32) -> (r: Result<i128, SharedError>)
    ensures
        i128::MIN <= base * multiplier <= i128::MAX ==> r == Ok::<i128, SharedError>((base * multiplier) as i128),
        !(i128::MIN <= base * multiplier <= i128::MAX) ==> r == Err::<i128, SharedError>(SharedError::MathOverflow),
{
    match base.checked_mul(multiplier as i128) {
        Some(v) => Ok(v),
        None => Err(SharedError::MathOverflow),
    }
}

} // verus!
