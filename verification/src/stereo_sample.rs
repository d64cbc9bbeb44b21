use vstd::prelude::*;

verus! {

/// Bit pattern of one `f32` audio sample.
///
/// The library moves samples around (link amounts, velocities, expression
/// values) without doing arithmetic on them, so it keeps them as raw bits;
/// the application converts with `f32::to_bits` / `f32::from_bits`.
pub type SampleBits = u32;

/// Bits of `0.0f32`.
pub const ZERO_BITS: SampleBits = 0x0000_0000u32;

/// Bits of `1.0f32`.
pub const ONE_BITS: SampleBits = 0x3f80_0000u32;

/// A left/right pair of samples, held as raw `f32` bit patterns.
#[derive(Debug, Clone, Copy)]
pub struct StereoSample {
    pub channels: [SampleBits; 2],
}

impl StereoSample {
    /// Silence on both channels (`0.0`).
    pub fn zero() -> (s: Self)
        ensures
            s.channels[0] == ZERO_BITS,
            s.channels[1] == ZERO_BITS,
    {
        StereoSample { channels: [ZERO_BITS, ZERO_BITS] }
    }

    /// Unity on both channels (`1.0`).
    pub fn one() -> (s: Self)
        ensures
            s.channels[0] == ONE_BITS,
            s.channels[1] == ONE_BITS,
    {
        StereoSample { channels: [ONE_BITS, ONE_BITS] }
    }

    /// Builds a pair from the bits of the left and right samples.
    pub fn from_bits(left: SampleBits, right: SampleBits) -> (s: Self)
        ensures
            s.channels[0] == left,
            s.channels[1] == right,
    {
        StereoSample { channels: [left, right] }
    }

    /// The same sample on both channels.
    pub fn splat_bits(lr: SampleBits) -> (s: Self)
        ensures
            s.channels[0] == lr,
            s.channels[1] == lr,
    {
        StereoSample { channels: [lr, lr] }
    }

    pub fn left_bits(&self) -> (b: SampleBits)
        ensures
            b == self.channels[0],
    {
        self.channels[0]
    }

    pub fn right_bits(&self) -> (b: SampleBits)
        ensures
            b == self.channels[1],
    {
        self.channels[1]
    }

    /// The bits of channel `channel_idx` (0 = left, 1 = right).
    pub fn channel_bits(&self, channel_idx: usize) -> (b: SampleBits)
        requires
            channel_idx < 2,
        ensures
            b == self.channels[channel_idx as int],
    {
        self.channels[channel_idx]
    }
}

} // verus!
