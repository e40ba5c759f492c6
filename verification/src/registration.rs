//! What the service answers to a request that registers a channel.

use crate::error::HttpError;
use vstd::prelude::*;

verus! {

/// Why the store did not take a new row: the code that the database gave,
/// where it gave one, and a description of the failure.
#[derive(Debug)]
pub struct StoreFailure {
    pub code: Option<String>,
    pub detail: String,
}

/// The answer to a registration, and whether the scheduler is to be woken.
#[derive(Debug)]
pub struct Registration {
    pub response: Result<(), HttpError>,
    pub wake: bool,
}

/// The code by which the database reports that a name is taken: a violated
/// unique constraint.
pub open spec fn unique_violation() -> Seq<char> {
    "2067"@
}

/// Whether the failure is the database's report that a name is taken.
pub open spec fn is_conflict(failure: StoreFailure) -> bool {
    failure.code matches Some(code) && code@ == unique_violation()
}

/// Decides the answer to a registration from what the store said.
///
/// A channel that was stored is answered with success, and the scheduler
/// is woken. A name that is taken is answered with `AlreadyExists`, any
/// other failure of the store with `Sqlx` and its description; neither
/// wakes the scheduler.
pub fn answer_registration(outcome: Result<(), StoreFailure>) -> (r: Registration)
    ensures
        match outcome {
            Ok(_) => r.response is Ok && r.wake,
            Err(failure) => !r.wake && if is_conflict(failure) {
                r.response matches Err(HttpError::AlreadyExists)
            } else {
                r.response matches Err(HttpError::Sqlx(detail)) && detail@ == failure.detail@
            },
        },
{
    match outcome {
        Ok(_) => Registration { response: Ok(()), wake: true },
        Err(failure) => {
            let taken = match &failure.code {
                Some(code) => *code == "2067".to_owned(),
                None => false,
            };
            if taken {
                Registration { response: Err(HttpError::AlreadyExists), wake: false }
            } else {
                Registration { response: Err(HttpError::Sqlx(failure.detail)), wake: false }
            }
        },
    }
}

} // verus!
