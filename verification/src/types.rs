use vstd::prelude::*;

verus! {

/// A control value as seen from two consecutive blocks: the value the block
/// before produced and the one the current block produced.
#[derive(Debug, Clone, Copy)]
pub struct ScalarOutput<T> {
    output: [T; 2],
}

impl<T: Copy> ScalarOutput<T> {
    pub closed spec fn spec_previous(&self) -> T {
        self.output[0]
    }

    pub closed spec fn spec_current(&self) -> T {
        self.output[1]
    }

    /// An output that has held `value` so far.
    pub fn new(value: T) -> (r: Self)
        ensures
            r.spec_previous() == value,
            r.spec_current() == value,
    {
        Self { output: [value, value] }
    }

    pub fn previous(&self) -> (r: T)
        ensures
            r == self.spec_previous(),
    {
        self.output[0]
    }

    pub fn current(&self) -> (r: T)
        ensures
            r == self.spec_current(),
    {
        self.output[1]
    }

    /// The current value when `current` is set, else the previous one.
    pub fn get(&self, current: bool) -> (r: T)
        ensures
            r == if current {
                self.spec_current()
            } else {
                self.spec_previous()
            },
    {
        if current {
            self.output[1]
        } else {
            self.output[0]
        }
    }

    /// Moves on by one block: the current value becomes the previous one.
    pub fn advance(&mut self, next: T)
        ensures
            final(self).spec_previous() == old(self).spec_current(),
            final(self).spec_current() == next,
    {
        self.output[0] = self.output[1];
        self.output[1] = next;
    }
}

/// A pair of spectrum buffers used in turn: while a module writes the spectrum
/// of the next frame into one, readers still see the current frame in the other.
#[derive(Debug, Clone, Copy)]
pub struct SpectralOutput<B> {
    swapped: bool,
    output: [B; 2],
}

impl<B> SpectralOutput<B> {
    /// The buffer readers get for the current frame (`get(true)`).
    pub closed spec fn this_frame(&self) -> B {
        if self.swapped {
            self.output[1]
        } else {
            self.output[0]
        }
    }

    /// The buffer readers get for the next frame (`get(false)`).
    pub closed spec fn next_frame(&self) -> B {
        if self.swapped {
            self.output[0]
        } else {
            self.output[1]
        }
    }

    /// Double buffering over `first` (the current frame) and `second` (the next one).
    pub fn new(first: B, second: B) -> (r: Self)
        ensures
            r.this_frame() == first,
            r.next_frame() == second,
    {
        Self { swapped: false, output: [first, second] }
    }

    /// The current frame's spectrum when `triggered`, else the next frame's.
    pub fn get(&self, triggered: bool) -> (r: &B)
        ensures
            *r == if triggered {
                self.this_frame()
            } else {
                self.next_frame()
            },
    {
        if triggered == self.swapped {
            &self.output[1]
        } else {
            &self.output[0]
        }
    }

    /// Moves on by one frame: the next frame becomes the current one, and the
    /// buffer of the old current frame is handed out to be written as the new
    /// next frame.
    pub fn advance(&mut self) -> (r: &mut B)
        ensures
            *r == old(self).this_frame(),
            final(self).this_frame() == old(self).next_frame(),
            final(self).next_frame() == *final(r),
    {
        self.swapped = !self.swapped;
        if self.swapped {
            &mut self.output[0]
        } else {
            &mut self.output[1]
        }
    }
}

} // verus!
