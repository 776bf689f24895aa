//! Waking the event loop from another thread.

use vstd::prelude::*;

use crate::sys;

verus! {

/// What writing to the wake descriptor came to: nothing, or an error number.
/// A descriptor that cannot take more is readable already, which is all that
/// is wanted.
pub fn wake_result(rc: i32) -> (r: Result<(), i32>)
    requires
        rc > i32::MIN,
    ensures
        r == if rc < 0 && rc != -sys::EAGAIN {
            Err::<(), i32>((-rc) as i32)
        } else {
            Ok::<(), i32>(())
        },
{
    if rc < 0 && rc != -sys::EAGAIN {
        Err(-rc)
    } else {
        Ok(())
    }
}

} // verus!
