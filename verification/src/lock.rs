//! Taking a lock whether or not a holder panicked: the tables the hooks
//! share stay usable after a panic in another hook.
use std::sync::LockResult;
use std::sync::PoisonError;
use vstd::prelude::*;

verus! {

#[verifier::external_type_specification]
#[verifier::external_body]
#[verifier::reject_recursive_types(T)]
pub struct ExPoisonError<T>(PoisonError<T>);

/// `PoisonError::into_inner`: hands back the guard that a poisoned lock
/// still gave. Nothing is stated of which guard that is (a `PoisonError`
/// is opaque here).
pub assume_specification<T>[ PoisonError::<T>::into_inner ](e: PoisonError<T>) -> T;

/// The result of taking a lock, read as the guard it gives in any case.
pub trait LockResultExt {
    type Guard;

    /// The guard, also where a former holder of the lock panicked.
    fn ignore_poison(self) -> Self::Guard;
}

impl<Guard> LockResultExt for LockResult<Guard> {
    type Guard = Guard;

    /// The guard of a lock taken cleanly, or the one a poisoned lock gave.
    fn ignore_poison(self) -> (r: Guard)
        ensures
            self is Ok ==> r == self->Ok_0,
    {
        match self {
            Ok(guard) => guard,
            Err(poisoned) => poisoned.into_inner(),
        }
    }
}

} // verus!
