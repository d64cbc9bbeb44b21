use vstd::prelude::*;

verus! {

/// The UI side of a module: pulls what the audio side reports.
pub trait ModuleUiBridge {
    fn update(&mut self);
}

} // verus!
