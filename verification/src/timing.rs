use vstd::prelude::*;

verus! {

/// How long a frame of `max_nanos` still has to wait once `elapsed_nanos`
/// have passed since it began: the rest of the frame, or nothing when the
/// frame is already over.
pub fn pause_nanos(elapsed_nanos: u128, max_nanos: u128) -> (p: u128)
    ensures
        p == if elapsed_nanos < max_nanos {
            max_nanos - elapsed_nanos
        } else {
            0
        },
        elapsed_nanos + p == if elapsed_nanos < max_nanos {
            max_nanos as int
        } else {
            elapsed_nanos as int
        },
{
    if elapsed_nanos < max_nanos {
        max_nanos - elapsed_nanos
    } else {
        0
    }
}

} // verus!
