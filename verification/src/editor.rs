//! The state of the editor window.
use vstd::prelude::*;

verus! {

/// Counters and lines of the editor window.
pub struct Editor {
    pub count: u32,
    pub frames: u32,
    pub strs: Vec<String>,
}

impl Default for Editor {
    fn default() -> (e: Self)
        ensures
            e.count == 0,
            e.frames == 0,
            e.strs@ == Seq::<String>::empty(),
    {
        Editor { count: 0, frames: 0, strs: Vec::new() }
    }
}

} // verus!
