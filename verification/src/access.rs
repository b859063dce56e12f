//! Who may perform a privileged operation.

use vstd::prelude::*;
use crate::address::Address;
use crate::error::Error;

verus! {

/// Whether `caller` is the address configured for an operation.
pub open spec fn caller_is(caller: Address, configured: Address) -> bool {
    caller == configured
}

/// Lets `caller` through only if it is the configured address.
pub fn require_caller_is(caller: Address, configured: Address) -> (r: Result<(), Error>)
    ensures
        caller_is(caller, configured) ==> r == Ok::<(), Error>(()),
        !caller_is(caller, configured) ==> r == Err::<(), Error>(Error::Unauthorized),
{
    if caller == configured {
        Ok(())
    } else {
        Err(Error::Unauthorized)
    }
}

} // verus!
