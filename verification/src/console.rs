//! Which standard handles to fill in.
//!
//! A redirected handle must be left alone: when the user sends output to a file or a
//! pipe, the shell hands the process a perfectly good handle that is not a console.
//! So a handle is replaced only when it is genuinely missing.

use vstd::prelude::*;

verus! {

/// What Windows returns for a handle that is not there.
pub const INVALID_HANDLE: isize = -1;

/// The handle is one that the process can actually write to.
pub fn usable(handle: isize) -> (r: bool)
    ensures
        r == (handle != 0 && handle != INVALID_HANDLE),
{
    handle != 0 && handle != INVALID_HANDLE
}

} // verus!
