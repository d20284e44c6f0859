//! Failures of the outside world where a computation cannot go on without
//! its answer: the caller decides what to do with them.

use vstd::prelude::*;

verus! {

/// What the outside world failed to provide.
#[derive(Debug, Clone, Copy, PartialEq, Eq, Structural)]
pub enum Fault {
    /// The system clock reads a time before the Unix epoch.
    ClockBeforeEpoch,
    /// The signer did not produce a signature.
    SigningFailed,
    /// The operating system's random generator failed, or never yielded a
    /// valid secret key.
    RandomSourceFailed,
}

} // verus!
