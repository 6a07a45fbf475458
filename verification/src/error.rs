//! The error of refused configurations and actions.

use vstd::prelude::*;

verus! {

/// Why a configuration or an action was refused.
#[derive(Debug)]
pub struct GuardError {
    pub message: String,
}

impl GuardError {
    pub fn new(message: &str) -> (r: Self)
        ensures
            r.message@ == message@,
    {
        GuardError { message: message.to_owned() }
    }
}

}
