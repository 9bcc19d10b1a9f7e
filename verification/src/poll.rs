//! Progress of asynchronous work.

use vstd::prelude::*;

verus! {

/// Whether something has come to its result.
pub enum Poll<T> {
    Ready(T),
    Pending,
}

/// Declares `std::task::Waker`, which the library stores and hands back. Nothing
/// is claimed of it.
#[verifier::external_type_specification]
#[verifier::external_body]
pub struct ExWaker(std::task::Waker);

} // verus!
