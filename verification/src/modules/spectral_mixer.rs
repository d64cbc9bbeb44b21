use vstd::prelude::*;

use crate::modules::inputs::{slots_for, sources_for, spectral_slot, spectral_slot_for};
use crate::routing::{
    slots_with_amount, DataType, Input, InputMeta, InputSlots, MixType, SpectralInputSlot, VolumeType,
};
use crate::stereo_sample::StereoSample;

verus! {

/// The number of spectra the mixer mixes.
pub const MAX_INPUTS: u8 = 6;

pub open spec fn control_meta(t: Input) -> InputMeta {
    InputMeta { input_type: t, data_type: DataType::Control, is_direct: false }
}

pub open spec fn spectral_meta(t: Input) -> InputMeta {
    InputMeta { input_type: t, data_type: DataType::Spectral, is_direct: true }
}

/// The inputs the mixer exposes, in the order the editor lists them: output
/// gain and level, then spectrum, gain and level of each mixed spectrum.
pub fn inputs() -> (r: Vec<InputMeta>)
    ensures
        r@.len() == 2 + 3 * MAX_INPUTS,
        r@[0] == control_meta(Input::Gain),
        r@[1] == control_meta(Input::Level),
        forall|i: int|
            0 <= i < MAX_INPUTS ==> {
                &&& #[trigger] r@[2 + 3 * i] == spectral_meta(Input::SpectrumMix(i as u8))
                &&& r@[3 + 3 * i] == control_meta(Input::GainMix(i as u8))
                &&& r@[4 + 3 * i] == control_meta(Input::LevelMix(i as u8))
            },
{
    let mut r: Vec<InputMeta> = Vec::new();
    r.push(InputMeta::control(Input::Gain));
    r.push(InputMeta::control(Input::Level));
    let mut i: u8 = 0;
    while i < MAX_INPUTS
        invariant
            i <= MAX_INPUTS,
            r@.len() == 2 + 3 * i,
            r@[0] == control_meta(Input::Gain),
            r@[1] == control_meta(Input::Level),
            forall|j: int|
                0 <= j < i ==> {
                    &&& #[trigger] r@[2 + 3 * j] == spectral_meta(Input::SpectrumMix(j as u8))
                    &&& r@[3 + 3 * j] == control_meta(Input::GainMix(j as u8))
                    &&& r@[4 + 3 * j] == control_meta(Input::LevelMix(j as u8))
                },
        decreases MAX_INPUTS - i,
    {
        r.push(InputMeta::spectral(Input::SpectrumMix(i)));
        r.push(InputMeta::control(Input::GainMix(i)));
        r.push(InputMeta::control(Input::LevelMix(i)));
        i = i + 1;
    }
    r
}

/// Where the mixer reads its inputs from: output gain and level, and per mixed
/// spectrum its slot, gain and level.
pub struct Inputs {
    pub gain: InputSlots,
    pub level: InputSlots,
    pub spectrum_mix: Vec<Option<usize>>,
    pub gain_mix: Vec<InputSlots>,
    pub level_mix: Vec<InputSlots>,
}

impl Inputs {
    /// One entry per mixed spectrum.
    pub open spec fn wf(&self) -> bool {
        &&& self.spectrum_mix@.len() == MAX_INPUTS
        &&& self.gain_mix@.len() == MAX_INPUTS
        &&& self.level_mix@.len() == MAX_INPUTS
    }

    /// Each input takes the sources of its last entry; inputs for spectra past
    /// the sixth are ignored.
    pub fn from_slots(inputs: &[InputSlots], spectral_inputs: &[SpectralInputSlot]) -> (r: Self)
        ensures
            r.wf(),
            r.gain.input_type == Input::Gain,
            r.gain.slots@ == sources_for(inputs@, Input::Gain),
            r.level.input_type == Input::Level,
            r.level.slots@ == sources_for(inputs@, Input::Level),
            forall|k: int|
                0 <= k < MAX_INPUTS ==> {
                    &&& #[trigger] r.spectrum_mix@[k] == spectral_slot_for(spectral_inputs@, Input::SpectrumMix(k as u8))
                    &&& r.gain_mix@[k].input_type == Input::GainMix(k as u8)
                    &&& r.gain_mix@[k].slots@ == sources_for(inputs@, Input::GainMix(k as u8))
                    &&& r.level_mix@[k].input_type == Input::LevelMix(k as u8)
                    &&& r.level_mix@[k].slots@ == sources_for(inputs@, Input::LevelMix(k as u8))
                },
    {
        let mut spectrum_mix: Vec<Option<usize>> = Vec::new();
        let mut gain_mix: Vec<InputSlots> = Vec::new();
        let mut level_mix: Vec<InputSlots> = Vec::new();
        let mut k: u8 = 0;
        while k < MAX_INPUTS
            invariant
                k <= MAX_INPUTS,
                spectrum_mix@.len() == k,
                gain_mix@.len() == k,
                level_mix@.len() == k,
                forall|j: int|
                    0 <= j < k ==> {
                        &&& #[trigger] spectrum_mix@[j] == spectral_slot_for(spectral_inputs@, Input::SpectrumMix(j as u8))
                        &&& gain_mix@[j].input_type == Input::GainMix(j as u8)
                        &&& gain_mix@[j].slots@ == sources_for(inputs@, Input::GainMix(j as u8))
                        &&& level_mix@[j].input_type == Input::LevelMix(j as u8)
                        &&& level_mix@[j].slots@ == sources_for(inputs@, Input::LevelMix(j as u8))
                    },
            decreases MAX_INPUTS - k,
        {
            spectrum_mix.push(spectral_slot(spectral_inputs, Input::SpectrumMix(k)));
            gain_mix.push(slots_for(inputs, Input::GainMix(k)));
            level_mix.push(slots_for(inputs, Input::LevelMix(k)));
            k = k + 1;
        }
        Inputs {
            gain: slots_for(inputs, Input::Gain),
            level: slots_for(inputs, Input::Level),
            spectrum_mix,
            gain_mix,
            level_mix,
        }
    }

    /// Sets the amount of the source in arena slot `src_slot` of control input
    /// `input_type`; inputs for spectra past the sixth are ignored.
    pub fn update_amount(&mut self, input_type: Input, src_slot: usize, amount: StereoSample)
        requires
            old(self).wf(),
        ensures
            final(self).wf(),
            final(self).spectrum_mix@ == old(self).spectrum_mix@,
            final(self).gain.input_type == old(self).gain.input_type,
            final(self).level.input_type == old(self).level.input_type,
            final(self).gain.slots@ == if input_type == Input::Gain {
                slots_with_amount(old(self).gain.slots@, src_slot, amount)
            } else {
                old(self).gain.slots@
            },
            final(self).level.slots@ == if input_type == Input::Level {
                slots_with_amount(old(self).level.slots@, src_slot, amount)
            } else {
                old(self).level.slots@
            },
            forall|k: int|
                0 <= k < MAX_INPUTS ==> {
                    &&& (#[trigger] final(self).gain_mix@[k]).input_type == old(self).gain_mix@[k].input_type
                    &&& final(self).gain_mix@[k].slots@ == if input_type == Input::GainMix(k as u8) {
                        slots_with_amount(old(self).gain_mix@[k].slots@, src_slot, amount)
                    } else {
                        old(self).gain_mix@[k].slots@
                    }
                },
            forall|k: int|
                0 <= k < MAX_INPUTS ==> {
                    &&& (#[trigger] final(self).level_mix@[k]).input_type == old(self).level_mix@[k].input_type
                    &&& final(self).level_mix@[k].slots@ == if input_type == Input::LevelMix(k as u8) {
                        slots_with_amount(old(self).level_mix@[k].slots@, src_slot, amount)
                    } else {
                        old(self).level_mix@[k].slots@
                    }
                },
    {
        match input_type {
            Input::Gain => self.gain.update_amount(src_slot, amount),
            Input::Level => self.level.update_amount(src_slot, amount),
            Input::GainMix(idx) => {
                if idx < MAX_INPUTS {
                    self.gain_mix[idx as usize].update_amount(src_slot, amount);
                }
            },
            Input::LevelMix(idx) => {
                if idx < MAX_INPUTS {
                    self.level_mix[idx as usize].update_amount(src_slot, amount);
                }
            },
            _ => {},
        }
    }
}

/// How one mixed spectrum joins the mix, and in which unit its volume is set.
#[derive(Debug, Clone, Copy, PartialEq, Eq, Structural)]
pub struct InputParams {
    pub mix_type: MixType,
    pub volume_type: VolumeType,
}

/// The mixer's settings that are not per channel.
pub struct Params {
    pub num_inputs: u8,
    pub inputs: Vec<InputParams>,
    pub output_volume_type: VolumeType,
}

/// `n` limited to `1..=MAX_INPUTS`.
pub open spec fn clamp_num_inputs(n: u8) -> u8 {
    if n < 1 {
        1
    } else if n > MAX_INPUTS {
        MAX_INPUTS
    } else {
        n
    }
}

impl Params {
    /// One setting per mixed spectrum.
    pub open spec fn wf(&self) -> bool {
        self.inputs@.len() == MAX_INPUTS
    }

    /// The settings as configured: `num_inputs` spectra, kept as given (a
    /// configured count of zero mixes nothing), all with the same settings.
    pub fn new(num_inputs: u8, input: InputParams, output_volume_type: VolumeType) -> (r: Self)
        ensures
            r.wf(),
            r.num_inputs == num_inputs,
            r.inputs@ == Seq::new(MAX_INPUTS as nat, |i: int| input),
            r.output_volume_type == output_volume_type,
    {
        let mut inputs: Vec<InputParams> = Vec::new();
        while inputs.len() < MAX_INPUTS as usize
            invariant
                inputs@.len() <= MAX_INPUTS,
                forall|j: int| 0 <= j < inputs@.len() ==> inputs@[j] == input,
            decreases MAX_INPUTS - inputs@.len(),
        {
            inputs.push(input);
        }
        proof {
            assert(inputs@ =~= Seq::new(MAX_INPUTS as nat, |i: int| input));
        }
        Params { num_inputs, inputs, output_volume_type }
    }

    /// From the editor: mixes the first `num_inputs` spectra, limited to
    /// `1..=MAX_INPUTS`.
    pub fn set_num_inputs(&mut self, num_inputs: u8)
        ensures
            final(self).num_inputs == clamp_num_inputs(num_inputs),
            final(self).inputs@ == old(self).inputs@,
            final(self).output_volume_type == old(self).output_volume_type,
    {
        self.num_inputs = if num_inputs < 1 {
            1
        } else if num_inputs > MAX_INPUTS {
            MAX_INPUTS
        } else {
            num_inputs
        };
    }

    pub fn set_output_volume_type(&mut self, output_volume_type: VolumeType)
        ensures
            final(self).output_volume_type == output_volume_type,
            final(self).num_inputs == old(self).num_inputs,
            final(self).inputs@ == old(self).inputs@,
    {
        self.output_volume_type = output_volume_type;
    }

    /// How spectrum `input_idx` joins the mix.
    pub fn set_mix_type(&mut self, input_idx: u8, mix_type: MixType)
        requires
            old(self).wf(),
            input_idx < MAX_INPUTS,
        ensures
            final(self).inputs@ == old(self).inputs@.update(
                input_idx as int,
                InputParams { mix_type, volume_type: old(self).inputs@[input_idx as int].volume_type },
            ),
            final(self).num_inputs == old(self).num_inputs,
            final(self).output_volume_type == old(self).output_volume_type,
    {
        let idx = input_idx as usize;
        let old_params = self.inputs[idx];
        self.inputs.set(idx, InputParams { mix_type, volume_type: old_params.volume_type });
    }

    /// The unit in which the volume of spectrum `input_idx` is set.
    pub fn set_volume_type(&mut self, input_idx: u8, volume_type: VolumeType)
        requires
            old(self).wf(),
            input_idx < MAX_INPUTS,
        ensures
            final(self).inputs@ == old(self).inputs@.update(
                input_idx as int,
                InputParams { mix_type: old(self).inputs@[input_idx as int].mix_type, volume_type },
            ),
            final(self).num_inputs == old(self).num_inputs,
            final(self).output_volume_type == old(self).output_volume_type,
    {
        let idx = input_idx as usize;
        let old_params = self.inputs[idx];
        self.inputs.set(idx, InputParams { mix_type: old_params.mix_type, volume_type });
    }
}

} // verus!
