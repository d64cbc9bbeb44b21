use vstd::prelude::*;

use crate::seq_search::{first_index, lemma_first_index_is, lemma_first_index_none};
use crate::stereo_sample::{SampleBits, StereoSample};

pub mod outputs;
pub mod outputs_arena;
pub mod process_context;
pub mod voice_router;

verus! {

pub type ModuleId = i32;

pub const MAX_VOICES: usize = 20;
pub const NUM_CHANNELS: usize = 2;
pub const OUTPUT_MODULE_ID: ModuleId = 0;
pub const MIN_MODULE_ID: ModuleId = 1;

pub const LEFT_CHANNEL: usize = 0;
pub const RIGHT_CHANNEL: usize = 1;

pub const UI_TO_AUDIO_RING_CAPACITY: usize = 64;
pub const AUDIO_TO_UI_RING_CAPACITY: usize = 64;

/// What flows out of a module: audio-rate samples, control-rate samples or a spectrum.
#[derive(Debug, PartialEq, Eq, Structural, Clone, Copy)]
pub enum DataType {
    Audio,
    Control,
    Spectral,
}

/// The inputs a module can expose.
#[derive(Debug, PartialEq, Eq, Structural, Clone, Copy, Hash)]
pub enum Input {
    Audio,
    AudioMix(u8),
    Gain,
    GainMix(u8),
    Level,
    LevelMix(u8),
    Pan,
    Distortion,
    ClippingLevel,
    PitchShift,
    Detune,
    DetunePower,
    Glide,
    GlideSlope,
    PhaseShift,
    PhaseSteal,
    FrequencyShift,
    Spectrum,
    SpectrumMix(u8),
    SpectrumTo,
    Blend,
    PhasesBlend,
    GainsBlend,
    LowFrequency,
    Cutoff,
    Resonance,
    Drive,
    Skew,
    Delay,
    Attack,
    Hold,
    Decay,
    Sustain,
    Release,
}

/// Static description of one input of a module.
#[derive(Debug, Clone, Copy)]
pub struct InputMeta {
    pub input_type: Input,
    pub data_type: DataType,
    pub is_direct: bool,
}

impl InputMeta {
    /// An audio input fed by exactly one source.
    pub fn direct_audio(input: Input) -> (m: Self)
        ensures
            m.input_type == input,
            m.data_type == DataType::Audio,
            m.is_direct,
    {
        Self { input_type: input, data_type: DataType::Audio, is_direct: true }
    }

    /// An audio input that mixes any number of sources.
    pub fn audio(input: Input) -> (m: Self)
        ensures
            m.input_type == input,
            m.data_type == DataType::Audio,
            !m.is_direct,
    {
        Self { input_type: input, data_type: DataType::Audio, is_direct: false }
    }

    /// A control input that mixes any number of sources.
    pub fn control(input: Input) -> (m: Self)
        ensures
            m.input_type == input,
            m.data_type == DataType::Control,
            !m.is_direct,
    {
        Self { input_type: input, data_type: DataType::Control, is_direct: false }
    }

    /// A spectral input, always fed by exactly one source.
    pub fn spectral(input: Input) -> (m: Self)
        ensures
            m.input_type == input,
            m.data_type == DataType::Spectral,
            m.is_direct,
    {
        Self { input_type: input, data_type: DataType::Spectral, is_direct: true }
    }
}

/// Per-note expression dimensions (MPE).
#[derive(Debug, Default, PartialEq, Eq, Structural, Clone, Copy)]
pub enum Expression {
    #[default]
    Velocity,
    Gain,
    Pan,
    Pitch,
    Timbre,
    Pressure,
}

/// A voice event produced by the voice allocator.
///
/// Pitches are carried as the MIDI note number and samples (velocity,
/// expression value) as `f32` bit patterns.
#[derive(Debug, Clone, Copy, PartialEq, Eq, Structural)]
pub enum VoiceEvent {
    Reset {
        voice_idx: usize,
        prev_voice_idx: Option<usize>,
        note: u8,
        velocity: SampleBits,
        offset: usize,
    },
    Update { voice_idx: usize, note: u8, velocity: SampleBits, offset: usize },
    Release { voice_idx: usize, velocity: SampleBits, offset: usize },
    Kill { voice_idx: usize, offset: usize },
    Expression { voice_idx: usize, expression: Expression, offset: usize, value: SampleBits },
}

/// An expression change addressed to one voice.
#[derive(Debug, Clone, Copy)]
pub struct ExpressionEvent {
    pub voice_idx: usize,
    pub expression: Expression,
    pub offset: usize,
    pub value: SampleBits,
}

#[derive(Debug, Default, Clone, Copy, PartialEq, Eq, Structural)]
pub enum VolumeType {
    #[default]
    Gain,
    Db,
}

impl VolumeType {
    /// The label shown in the UI.
    pub fn label(&self) -> (s: &'static str)
        ensures
            *self == VolumeType::Db ==> s@ == "dB"@,
            *self == VolumeType::Gain ==> s@ == "Gain"@,
    {
        match self {
            Self::Db => "dB",
            Self::Gain => "Gain",
        }
    }
}

#[derive(Debug, Default, Clone, Copy, PartialEq, Eq, Structural)]
pub enum MixType {
    #[default]
    Add,
    Subtract,
    Multiply,
}

/// One input of one module.
#[derive(Debug, PartialEq, Eq, Structural, Clone, Copy, Hash)]
pub struct InputId {
    pub input_type: Input,
    pub module_id: ModuleId,
}

impl InputId {
    pub fn new(input: Input, id: ModuleId) -> (r: Self)
        ensures
            r.input_type == input,
            r.module_id == id,
    {
        Self { input_type: input, module_id: id }
    }
}

/// An edge of the routing graph.
#[derive(Debug, Clone, Copy)]
pub enum ModuleLink {
    Direct { src: ModuleId, dst: InputId },
    Mixed { src: ModuleId, dst: InputId, amount: StereoSample, modulation: Option<ModuleId> },
}

impl ModuleLink {
    pub fn direct(src: ModuleId, dst: InputId) -> (l: Self)
        ensures
            l == (ModuleLink::Direct { src, dst }),
    {
        Self::Direct { src, dst }
    }

    pub fn mixed(src: ModuleId, dst: InputId, amount: StereoSample) -> (l: Self)
        ensures
            l == (ModuleLink::Mixed { src, dst, amount, modulation: None }),
    {
        Self::Mixed { src, dst, amount, modulation: None }
    }

    pub fn mixed_modulated(
        src: ModuleId,
        dst: InputId,
        amount: StereoSample,
        modulation: Option<ModuleId>,
    ) -> (l: Self)
        ensures
            l == (ModuleLink::Mixed { src, dst, amount, modulation }),
    {
        Self::Mixed { src, dst, amount, modulation }
    }

    pub fn is_direct(&self) -> (r: bool)
        ensures
            r == (*self is Direct),
    {
        match self {
            Self::Direct { .. } => true,
            Self::Mixed { .. } => false,
        }
    }

    pub open spec fn spec_src(self) -> ModuleId {
        match self {
            ModuleLink::Direct { src, .. } => src,
            ModuleLink::Mixed { src, .. } => src,
        }
    }

    pub open spec fn spec_dst(self) -> InputId {
        match self {
            ModuleLink::Direct { dst, .. } => dst,
            ModuleLink::Mixed { dst, .. } => dst,
        }
    }

    pub open spec fn spec_modulation(self) -> Option<ModuleId> {
        match self {
            ModuleLink::Direct { .. } => None,
            ModuleLink::Mixed { modulation, .. } => modulation,
        }
    }

    pub fn src(&self) -> (r: ModuleId)
        ensures
            r == self.spec_src(),
    {
        match self {
            Self::Direct { src, .. } => *src,
            Self::Mixed { src, .. } => *src,
        }
    }

    pub fn dst(&self) -> (r: InputId)
        ensures
            r == self.spec_dst(),
    {
        match self {
            Self::Direct { dst, .. } => *dst,
            Self::Mixed { dst, .. } => *dst,
        }
    }

    pub fn modulation(&self) -> (r: Option<ModuleId>)
        ensures
            r == self.spec_modulation(),
    {
        match self {
            Self::Direct { .. } => None,
            Self::Mixed { modulation, .. } => *modulation,
        }
    }

    /// Drops the modulator of a mixed link; a direct link is left as it is.
    pub fn clear_modulation(&mut self)
        ensures
            (*old(self)) is Direct ==> *final(self) == *old(self),
            (*old(self)) is Mixed ==> *final(self) == (ModuleLink::Mixed {
                src: old(self).spec_src(),
                dst: old(self).spec_dst(),
                amount: old(self)->amount,
                modulation: None,
            }),
    {
        if let Self::Mixed { src, dst, amount, .. } = *self {
            *self = Self::Mixed { src, dst, amount, modulation: None };
        }
    }

    /// Sets the modulator of a mixed link. A direct link cannot be modulated:
    /// it is left as it is and `false` is returned.
    pub fn set_modulation(&mut self, modulator_id: ModuleId) -> (r: bool)
        ensures
            r == ((*old(self)) is Mixed),
            (*old(self)) is Direct ==> *final(self) == *old(self),
            (*old(self)) is Mixed ==> *final(self) == (ModuleLink::Mixed {
                src: old(self).spec_src(),
                dst: old(self).spec_dst(),
                amount: old(self)->amount,
                modulation: Some(modulator_id),
            }),
    {
        match *self {
            Self::Direct { .. } => false,
            Self::Mixed { src, dst, amount, .. } => {
                *self = Self::Mixed { src, dst, amount, modulation: Some(modulator_id) };
                true
            },
        }
    }
}

/// Module ids a mixed source reads: the source itself, then its modulator.
pub open spec fn mixed_source_ids(s: MixedSource) -> Seq<ModuleId> {
    match s.modulation {
        Some(m) => seq![s.module_id, m],
        None => seq![s.module_id],
    }
}

/// One source of a mixed input.
#[derive(Debug, Clone, Copy)]
pub struct MixedSource {
    pub module_id: ModuleId,
    pub amount: StereoSample,
    pub modulation: Option<ModuleId>,
}

impl MixedSource {
    /// The ids this source reads from: its module, then its modulator if any.
    pub fn source_ids(&self) -> (ids: Vec<ModuleId>)
        ensures
            ids@ == mixed_source_ids(*self),
    {
        let mut ids: Vec<ModuleId> = Vec::new();
        ids.push(self.module_id);
        if let Some(modulation) = self.modulation {
            ids.push(modulation);
        }
        proof {
            assert(ids@ =~= mixed_source_ids(*self));
        }
        ids
    }
}

/// Where an input takes its data from.
#[derive(Debug, Clone)]
pub enum InputSource {
    Direct(ModuleId),
    Mixed(Vec<MixedSource>),
}

/// Ids read by a list of mixed sources, in order.
pub open spec fn mixed_sources_ids(s: Seq<MixedSource>) -> Seq<ModuleId>
    decreases s.len(),
{
    if s.len() == 0 {
        Seq::empty()
    } else {
        mixed_sources_ids(s.drop_last()) + mixed_source_ids(s.last())
    }
}

/// The links an input source stands for, each one ending at `dst`.
pub open spec fn mixed_links(s: Seq<MixedSource>, dst: InputId) -> Seq<ModuleLink> {
    s.map_values(
        |m: MixedSource|
            ModuleLink::Mixed {
                src: m.module_id,
                dst,
                amount: m.amount,
                modulation: m.modulation,
            },
    )
}

impl InputSource {
    /// All module ids this input reads from.
    pub open spec fn spec_source_ids(&self) -> Seq<ModuleId> {
        match self {
            InputSource::Direct(id) => seq![*id],
            InputSource::Mixed(sources) => mixed_sources_ids(sources@),
        }
    }

    /// All module ids this input reads from: the direct source, or every mixed
    /// source followed by its modulator.
    pub fn source_ids(&self) -> (ids: Vec<ModuleId>)
        ensures
            ids@ == self.spec_source_ids(),
    {
        match self {
            Self::Direct(id) => {
                let mut ids = Vec::new();
                ids.push(*id);
                proof {
                    assert(ids@ =~= seq![*id]);
                }
                ids
            },
            Self::Mixed(sources) => {
                let mut ids: Vec<ModuleId> = Vec::new();
                let mut i: usize = 0;
                while i < sources.len()
                    invariant
                        i <= sources.len(),
                        ids@ == mixed_sources_ids(sources@.take(i as int)),
                    decreases sources.len() - i,
                {
                    let s = sources[i];
                    ids.push(s.module_id);
                    if let Some(m) = s.modulation {
                        ids.push(m);
                    }
                    proof {
                        let t = sources@.take(i + 1);
                        assert(t.drop_last() =~= sources@.take(i as int));
                        assert(t.last() == s);
                    }
                    i = i + 1;
                }
                proof {
                    assert(sources@.take(sources.len() as int) =~= sources@);
                }
                ids
            },
        }
    }

    /// Whether `module_id` feeds this input (modulators are not counted).
    #[verifier::loop_isolation(false)]
    pub fn contains_module(&self, module_id: ModuleId) -> (r: bool)
        ensures
            r == match *self {
                InputSource::Direct(id) => id == module_id,
                InputSource::Mixed(sources) => has_source_from(sources@, module_id),
            },
    {
        match self {
            Self::Direct(id) => *id == module_id,
            Self::Mixed(sources) => {
                let mut i: usize = 0;
                while i < sources.len()
                    invariant
                        i <= sources.len(),
                        forall|j: int| 0 <= j < i ==> !from_module(module_id)(#[trigger] sources@[j]),
                    decreases sources.len() - i,
                {
                    if sources[i].module_id == module_id {
                        assert(from_module(module_id)(sources@[i as int]));
                        return true;
                    }
                    i = i + 1;
                }
                false
            },
        }
    }

    /// The routing edges this source stands for, all ending at `dst`.
    pub fn links(&self, dst: InputId) -> (links: Vec<ModuleLink>)
        ensures
            links@ == match self {
                InputSource::Direct(src) => seq![ModuleLink::Direct { src: *src, dst }],
                InputSource::Mixed(sources) => mixed_links(sources@, dst),
            },
    {
        let mut links: Vec<ModuleLink> = Vec::new();
        match self {
            Self::Direct(src) => {
                links.push(ModuleLink::direct(*src, dst));
                proof {
                    assert(links@ =~= seq![ModuleLink::Direct { src: *src, dst }]);
                }
            },
            Self::Mixed(sources) => {
                let mut i: usize = 0;
                while i < sources.len()
                    invariant
                        i <= sources.len(),
                        links@ == mixed_links(sources@.take(i as int), dst),
                    decreases sources.len() - i,
                {
                    let s = sources[i];
                    links.push(ModuleLink::mixed_modulated(s.module_id, dst, s.amount, s.modulation));
                    proof {
                        assert(mixed_links(sources@.take(i + 1), dst) =~= mixed_links(
                            sources@.take(i as int),
                            dst,
                        ).push(ModuleLink::Mixed {
                            src: s.module_id,
                            dst,
                            amount: s.amount,
                            modulation: s.modulation,
                        }));
                    }
                    i = i + 1;
                }
                proof {
                    assert(sources@.take(sources.len() as int) =~= sources@);
                }
            },
        }
        links
    }

    /// Sets the amount of the first mixed source coming from `src`.
    /// Returns whether such a source was found; a direct input never changes.
    pub fn update_amount(&mut self, src: ModuleId, amount: StereoSample) -> (found: bool)
        ensures
            match *old(self) {
                InputSource::Direct(_) => !found && *final(self) == *old(self),
                InputSource::Mixed(os) => {
                    let i = first_index(os@, from_module(src));
                    &&& found == (i >= 0)
                    &&& match *final(self) {
                        InputSource::Mixed(ns) => ns@ == if i >= 0 {
                            os@.update(i, with_amount(os@[i], amount))
                        } else {
                            os@
                        },
                        InputSource::Direct(_) => false,
                    }
                },
            },
    {
        match self {
            Self::Direct(_) => false,
            Self::Mixed(sources) => {
                match find_source(sources, src) {
                    Some(i) => {
                        let s = sources[i];
                        sources.set(i, MixedSource { module_id: s.module_id, amount, modulation: s.modulation });
                        true
                    },
                    None => false,
                }
            },
        }
    }

    /// Drops the modulator of the first mixed source coming from `src`.
    /// Returns whether such a source was found; a direct input never changes.
    pub fn clear_modulation(&mut self, src: ModuleId) -> (found: bool)
        ensures
            match *old(self) {
                InputSource::Direct(_) => !found && *final(self) == *old(self),
                InputSource::Mixed(os) => {
                    let i = first_index(os@, from_module(src));
                    &&& found == (i >= 0)
                    &&& match *final(self) {
                        InputSource::Mixed(ns) => ns@ == if i >= 0 {
                            os@.update(i, without_modulation(os@[i]))
                        } else {
                            os@
                        },
                        InputSource::Direct(_) => false,
                    }
                },
            },
    {
        match self {
            Self::Direct(_) => false,
            Self::Mixed(sources) => {
                match find_source(sources, src) {
                    Some(i) => {
                        let s = sources[i];
                        sources.set(i, MixedSource { module_id: s.module_id, amount: s.amount, modulation: None });
                        true
                    },
                    None => false,
                }
            },
        }
    }
}

/// Some source of `s` comes from module `src`.
pub open spec fn has_source_from(s: Seq<MixedSource>, src: ModuleId) -> bool {
    exists|i: int| 0 <= i < s.len() && #[trigger] from_module(src)(s[i])
}

/// The predicate "comes from module `src`" on mixed sources.
pub open spec fn from_module(src: ModuleId) -> spec_fn(MixedSource) -> bool {
    |s: MixedSource| s.module_id == src
}

pub open spec fn with_amount(s: MixedSource, amount: StereoSample) -> MixedSource {
    MixedSource { module_id: s.module_id, amount, modulation: s.modulation }
}

pub open spec fn without_modulation(s: MixedSource) -> MixedSource {
    MixedSource { module_id: s.module_id, amount: s.amount, modulation: None }
}

/// Position of the first source coming from `src`.
pub(crate) fn find_source(sources: &Vec<MixedSource>, src: ModuleId) -> (r: Option<usize>)
    ensures
        match r {
            Some(i) => i as int == first_index(sources@, from_module(src)),
            None => first_index(sources@, from_module(src)) == -1,
        },
{
    let mut i: usize = 0;
    while i < sources.len()
        invariant
            i <= sources.len(),
            forall|j: int| 0 <= j < i ==> !from_module(src)(#[trigger] sources@[j]),
        decreases sources.len() - i,
    {
        if sources[i].module_id == src {
            proof {
                lemma_first_index_is(sources@, from_module(src), i as int);
            }
            return Some(i);
        }
        i = i + 1;
    }
    proof {
        lemma_first_index_none(sources@, from_module(src));
    }
    None
}

pub open spec fn compatible(src: DataType, dst: DataType) -> bool {
    src == dst || (dst == DataType::Audio && src == DataType::Control)
}

/// Whether data of type `src` can be fed into an input of type `dst`:
/// equal types always can, and control signals can also drive audio inputs.
pub fn data_types_compatible(src: DataType, dst: DataType) -> (r: bool)
    ensures
        r == compatible(src, dst),
{
    src == dst || (dst == DataType::Audio && src == DataType::Control)
}

/// One source feeding a module input, by arena slot.
#[derive(Debug, Clone, Copy)]
pub struct InputSlot {
    pub src_slot: usize,
    pub modulation_slot: Option<usize>,
    pub amount: StereoSample,
}

/// The sources feeding one input of a module.
#[derive(Debug, Clone)]
pub struct InputSlots {
    pub input_type: Input,
    pub slots: Vec<InputSlot>,
}

/// The predicate "reads arena slot `slot`" on input slots.
pub open spec fn reads_slot(slot: usize) -> spec_fn(InputSlot) -> bool {
    |s: InputSlot| s.src_slot == slot
}

/// The sources after the first one reading arena slot `slot` got `amount`;
/// unchanged when no source reads it.
pub open spec fn slots_with_amount(s: Seq<InputSlot>, slot: usize, amount: StereoSample) -> Seq<InputSlot> {
    let i = first_index(s, reads_slot(slot));
    if i >= 0 {
        s.update(i, InputSlot { src_slot: s[i].src_slot, modulation_slot: s[i].modulation_slot, amount })
    } else {
        s
    }
}

impl InputSlots {
    pub fn new(input: Input) -> (r: Self)
        ensures
            r.input_type == input,
            r.slots@ == Seq::<InputSlot>::empty(),
    {
        Self { input_type: input, slots: Vec::new() }
    }

    pub fn is_empty(&self) -> (r: bool)
        ensures
            r == (self.slots@.len() == 0),
    {
        self.slots.len() == 0
    }

    /// The slot of the first source, if any.
    pub fn first_slot(&self) -> (r: Option<usize>)
        ensures
            self.slots@.len() == 0 ==> r is None,
            self.slots@.len() > 0 ==> r == Some(self.slots@[0].src_slot),
    {
        if self.slots.len() == 0 {
            None
        } else {
            Some(self.slots[0].src_slot)
        }
    }

    /// Sets the amount of the first source reading arena slot `slot`;
    /// nothing changes when no source reads it.
    pub fn update_amount(&mut self, slot: usize, amount: StereoSample)
        ensures
            final(self).input_type == old(self).input_type,
            final(self).slots@ == slots_with_amount(old(self).slots@, slot, amount),
    {
        let mut i: usize = 0;
        while i < self.slots.len()
            invariant
                i <= self.slots.len(),
                self.slots@ == old(self).slots@,
                self.input_type == old(self).input_type,
                forall|j: int| 0 <= j < i ==> !reads_slot(slot)(#[trigger] self.slots@[j]),
            decreases self.slots.len() - i,
        {
            if self.slots[i].src_slot == slot {
                proof {
                    lemma_first_index_is(self.slots@, reads_slot(slot), i as int);
                }
                let s = self.slots[i];
                self.slots.set(i, InputSlot { src_slot: s.src_slot, modulation_slot: s.modulation_slot, amount });
                return;
            }
            i = i + 1;
        }
        proof {
            lemma_first_index_none(self.slots@, reads_slot(slot));
        }
    }
}

/// The single source slot of a spectral input.
#[derive(Debug, Clone, Copy)]
pub struct SpectralInputSlot {
    pub input_type: Input,
    pub slot: usize,
}

} // verus!
