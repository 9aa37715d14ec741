//! What the window asks of the program at start.

use vstd::prelude::*;

verus! {

/// The directory the program was started on, if any, and its version.
pub struct LaunchInfo {
    pub dir: Option<String>,
    pub version: &'static str,
}

impl LaunchInfo {
    pub fn new(dir: Option<String>, version: &'static str) -> (r: Self)
        ensures
            r.dir == dir,
            r.version == version,
    {
        LaunchInfo { dir, version }
    }
}

} // verus!
