//! Start of the packet framework.

use vstd::prelude::*;

verus! {

/// Why the framework did not start.
#[derive(Debug, Clone, Copy, PartialEq, Eq, Structural)]
pub enum EalError {
    /// The initialisation returned this code.
    InitFailed(i32),
}

/// Shows that the framework is running. A process starts it once.
#[derive(Debug, PartialEq, Eq, Structural)]
pub struct Eal {
    pub started: bool,
}

impl Eal {
    /// Ends the start with the code that the initialisation returned: a
    /// negative one is a failure.
    pub fn init(rc: i32) -> (r: Result<Eal, EalError>)
        ensures
            rc < 0 ==> r == Err::<Eal, EalError>(EalError::InitFailed(rc)),
            rc >= 0 ==> r == Ok::<Eal, EalError>(Eal { started: true }),
    {
        if rc < 0 {
            return Err(EalError::InitFailed(rc));
        }
        Ok(Eal { started: true })
    }
}

} // verus!
