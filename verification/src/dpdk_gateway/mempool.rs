//! The pool of packet buffers.

use vstd::prelude::*;

verus! {

/// Why there is no pool.
#[derive(Debug, Clone, Copy, PartialEq, Eq, Structural)]
pub enum MempoolError {
    /// The pool could not be made; the huge pages may be set up wrongly.
    CreateFailed,
}

/// The address of a pool that was made.
#[derive(Debug, Clone, Copy, PartialEq, Eq, Structural)]
pub struct MbufPool {
    pub address: u64,
}

impl MbufPool {
    /// The pool at an address; zero means that none could be made.
    pub fn new(address: u64) -> (r: Result<MbufPool, MempoolError>)
        ensures
            address == 0 ==> r == Err::<MbufPool, MempoolError>(MempoolError::CreateFailed),
            address != 0 ==> r == Ok::<MbufPool, MempoolError>(MbufPool { address }),
    {
        if address == 0 {
            Err(MempoolError::CreateFailed)
        } else {
            Ok(MbufPool { address })
        }
    }
}

} // verus!
