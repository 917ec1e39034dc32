use vstd::prelude::*;

verus! {

#[verifier::external_type_specification]
#[verifier::external_body]
pub struct ExGetrandomError(getrandom::Error);

/// The operating system's random number source failed.
#[derive(Clone, Copy, Debug, PartialEq, Eq)]
pub struct RandomError;

/// Trusted: calls `getrandom::u32`, which asks the operating system's random
/// number source for a `u32`. Nothing is claimed of the value, nor of when the
/// source fails: both depend on the machine.
#[verifier::external_body]
fn os_random_u32() -> (r: Result<u32, getrandom::Error>) {
    getrandom::u32()
}

/// A uniformly random `u32` from the operating system, or `RandomError` when the
/// source fails.
pub fn random_u32() -> (r: Result<u32, RandomError>)
    ensures
        r is Err ==> r == Err::<u32, RandomError>(RandomError),
{
    match os_random_u32() {
        Ok(v) => Ok(v),
        Err(_) => Err(RandomError),
    }
}

} // verus!
