//! Display-sleep prevention during playback, where the platform needs no
//! call to hold it (the window flag is set together with the video view).
use vstd::prelude::*;

verus! {

/// Guard that tracks that the display is kept awake.
pub struct DisplaySleepGuard {
    _private: (),
}

impl DisplaySleepGuard {
    /// A guard; holding the display awake never fails here.
    pub fn new() -> (r: Option<DisplaySleepGuard>)
        ensures
            r is Some,
    {
        Some(DisplaySleepGuard { _private: () })
    }
}

} // verus!
