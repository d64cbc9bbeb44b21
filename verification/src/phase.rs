use vstd::prelude::*;
use vstd::std_specs::ops::AddSpec;

verus! {

/// An oscillator phase as a fraction of a full turn in 32-bit fixed point:
/// `0` is the start of a cycle and `u32::MAX + 1` a full cycle.
#[derive(Debug, Default, Clone, Copy, PartialEq, Eq, Structural)]
pub struct Phase(u32);

impl Phase {
    pub closed spec fn raw_spec(self) -> u32 {
        self.0
    }

    /// The start of a cycle.
    pub fn zero() -> (p: Self)
        ensures
            p.raw_spec() == 0,
    {
        Phase(0)
    }

    /// A phase from its fixed-point value.
    pub fn from_raw(raw: u32) -> (p: Self)
        ensures
            p.raw_spec() == raw,
    {
        Phase(raw)
    }

    /// The fixed-point value.
    pub fn raw(&self) -> (r: u32)
        ensures
            r == self.raw_spec(),
    {
        self.0
    }

    /// Bits of the phase below the wavetable index, for a table of
    /// `2^WAVEFORM_BITS` entries.
    pub fn intermediate_bits<const WAVEFORM_BITS: usize>() -> (r: usize)
        requires
            WAVEFORM_BITS <= 32,
        ensures
            r == 32 - WAVEFORM_BITS,
    {
        32 - WAVEFORM_BITS
    }

    /// Mask of the bits below the wavetable index.
    pub fn intermediate_mask<const WAVEFORM_BITS: usize>() -> (r: u32)
        requires
            1 <= WAVEFORM_BITS <= 32,
        ensures
            r == sub_mask((32 - WAVEFORM_BITS) as u32),
    {
        let bits = Self::intermediate_bits::<WAVEFORM_BITS>() as u32;
        let one: u32 = 1;
        assert(one << bits >= 1) by (bit_vector)
            requires
                bits < 32,
                one == 1,
        ;
        (one << bits) - 1
    }

    /// Index into a wavetable of `2^WAVEFORM_BITS` entries: the top
    /// `WAVEFORM_BITS` bits of the phase.
    pub fn wave_index<const WAVEFORM_BITS: usize>(&self) -> (r: usize)
        requires
            1 <= WAVEFORM_BITS <= 32,
        ensures
            r as int == (self.raw_spec() >> ((32 - WAVEFORM_BITS) as u32)) as int,
    {
        let bits = Self::intermediate_bits::<WAVEFORM_BITS>() as u32;
        (self.0 >> bits) as usize
    }
}

/// Mask of the `b` lowest bits.
pub open spec fn sub_mask(b: u32) -> u32 {
    ((1u32 << b) - 1) as u32
}

/// The wavetable index and the bits below it make up the whole phase:
/// `(index << b) + (phase & mask) == phase` for `b` intermediate bits.
pub proof fn lemma_index_and_fraction_rebuild_phase(raw: u32, b: u32)
    requires
        b < 32,
    ensures
        ((raw >> b) << b) + (raw & sub_mask(b)) == raw,
        (raw & sub_mask(b)) < (1u32 << b),
{
    assert(((raw >> b) << b) + (raw & (((1u32 << b) - 1) as u32)) == raw) by (bit_vector)
        requires
            b < 32,
    ;
    assert((raw & (((1u32 << b) - 1) as u32)) < (1u32 << b)) by (bit_vector)
        requires
            b < 32,
    ;
}

impl core::ops::Add for Phase {
    type Output = Self;

    /// Phases add modulo a full cycle.
    fn add(self, rhs: Self) -> (r: Self) {
        Phase(self.0.wrapping_add(rhs.0))
    }
}

impl vstd::std_specs::ops::AddSpecImpl for Phase {
    open spec fn obeys_add_spec() -> bool {
        true
    }

    open spec fn add_req(self, rhs: Self) -> bool {
        true
    }

    closed spec fn add_spec(self, rhs: Self) -> Self {
        Phase(((self.0 as int + rhs.0 as int) % 0x1_0000_0000) as u32)
    }
}

/// Adding phases is addition modulo a full cycle (`2^32`).
pub proof fn lemma_phase_add(a: Phase, b: Phase)
    ensures
        a.add_spec(b).raw_spec() as int == (a.raw_spec() as int + b.raw_spec() as int) % 0x1_0000_0000,
{
}

/// Phase addition is commutative and associative, and the zero phase adds nothing.
pub proof fn lemma_phase_add_laws(a: Phase, b: Phase, c: Phase)
    ensures
        a.add_spec(b) == b.add_spec(a),
        a.add_spec(b).add_spec(c) == a.add_spec(b.add_spec(c)),
        c.raw_spec() == 0 ==> a.add_spec(c) == a,
{
    let x = a.0 as int;
    let y = b.0 as int;
    let z = c.0 as int;
    let m = 0x1_0000_0000int;
    assert(((x + y) % m + z) % m == (x + (y + z) % m) % m) by (nonlinear_arith)
        requires
            0 <= x < m,
            0 <= y < m,
            0 <= z < m,
            m == 0x1_0000_0000int,
    ;
}

} // verus!
