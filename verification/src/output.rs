use vstd::prelude::*;

use crate::routing::{ModuleId, OUTPUT_MODULE_ID};

verus! {

/// The engine's output: it sums what every active voice routes to it.
#[derive(Debug, Clone, Copy)]
pub struct OutputModule {}

impl OutputModule {
    pub fn new() -> (r: Self) {
        OutputModule {}
    }

    /// The output module always has the reserved id.
    pub fn get_id(&self) -> (r: ModuleId)
        ensures
            r == OUTPUT_MODULE_ID,
    {
        OUTPUT_MODULE_ID
    }
}

} // verus!
