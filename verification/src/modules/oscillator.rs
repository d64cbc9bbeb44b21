use vstd::prelude::*;

verus! {

/// The two wave buffers of an oscillator voice that are (re)built from
/// spectra before a block is rendered.
#[derive(Debug, Clone, Copy, PartialEq, Eq, Structural)]
pub enum WaveBuild {
    /// First use: buffer 0 from the block's starting spectrum and buffer 1
    /// from its target spectrum.
    Both,
    /// Only buffer `0` or `1`, from the block's target spectrum.
    Target(u8),
}

/// Which of a voice's two wave buffers the rendered block fades from and to.
#[derive(Debug, Clone, Copy, PartialEq, Eq, Structural)]
pub struct WaveBuffersState {
    /// Both buffers hold a wave.
    pub wave_buffers_initialized: bool,
    /// Buffer 1 holds the wave to fade from and buffer 0 the one to fade to
    /// (else the other way round).
    pub wave_buffers_swapped: bool,
}

/// The buffer a block fades from.
pub open spec fn from_buffer(s: WaveBuffersState) -> u8 {
    if s.wave_buffers_swapped {
        1
    } else {
        0
    }
}

/// The buffer a block fades to.
pub open spec fn to_buffer(s: WaveBuffersState) -> u8 {
    (1 - from_buffer(s)) as u8
}

impl WaveBuffersState {
    /// A fresh voice: no wave built yet.
    pub fn new() -> (r: Self)
        ensures
            !r.wave_buffers_initialized,
            !r.wave_buffers_swapped,
    {
        WaveBuffersState { wave_buffers_initialized: false, wave_buffers_swapped: false }
    }

    /// Before a block: on first use both buffers are built, the wave to fade
    /// from in buffer 0; afterwards only the stale buffer, the one the last
    /// block faded from, is rebuilt from the new target spectrum, and the two
    /// swap roles. Either way the block then fades to the wave of its target
    /// spectrum, and from the wave the previous block faded to.
    pub fn prepare(&mut self) -> (r: WaveBuild)
        ensures
            r == if old(self).wave_buffers_initialized {
                WaveBuild::Target(from_buffer(*old(self)))
            } else {
                WaveBuild::Both
            },
            final(self).wave_buffers_initialized,
            final(self).wave_buffers_swapped == (old(self).wave_buffers_initialized
                && !old(self).wave_buffers_swapped),
            r matches WaveBuild::Target(b) ==> b == to_buffer(*final(self)),
            r matches WaveBuild::Target(_) ==> from_buffer(*final(self)) == to_buffer(*old(self)),
            r is Both ==> from_buffer(*final(self)) == 0 && to_buffer(*final(self)) == 1,
    {
        if self.wave_buffers_initialized {
            let target = if self.wave_buffers_swapped {
                1u8
            } else {
                0u8
            };
            self.wave_buffers_swapped = !self.wave_buffers_swapped;
            WaveBuild::Target(target)
        } else {
            self.wave_buffers_swapped = false;
            self.wave_buffers_initialized = true;
            WaveBuild::Both
        }
    }

    /// The buffers a block fades from and to, in that order.
    pub fn fade_buffers(&self) -> (r: (u8, u8))
        ensures
            r == (from_buffer(*self), to_buffer(*self)),
    {
        if self.wave_buffers_swapped {
            (1, 0)
        } else {
            (0, 1)
        }
    }
}

} // verus!
