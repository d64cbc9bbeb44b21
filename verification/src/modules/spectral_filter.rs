use vstd::prelude::*;

use crate::modules::inputs::{slots_for, sources_for, spectral_slot, spectral_slot_for};
use crate::routing::{slots_with_amount, Input, InputMeta, InputSlots, SpectralInputSlot};
use crate::stereo_sample::StereoSample;

verus! {

/// The inputs the spectral filter exposes, in the order the editor lists them.
pub fn inputs() -> (r: Vec<InputMeta>)
    ensures
        r@.len() == 4,
        r@[0] == (InputMeta { input_type: Input::Spectrum, data_type: crate::routing::DataType::Spectral, is_direct: true }),
        r@[1] == (InputMeta { input_type: Input::Cutoff, data_type: crate::routing::DataType::Control, is_direct: false }),
        r@[2] == (InputMeta { input_type: Input::Resonance, data_type: crate::routing::DataType::Control, is_direct: false }),
        r@[3] == (InputMeta { input_type: Input::Drive, data_type: crate::routing::DataType::Control, is_direct: false }),
{
    vec![
        InputMeta::spectral(Input::Spectrum),
        InputMeta::control(Input::Cutoff),
        InputMeta::control(Input::Resonance),
        InputMeta::control(Input::Drive),
    ]
}

/// Where the spectral filter reads its inputs from.
pub struct Inputs {
    pub spectrum: Option<usize>,
    pub cutoff: InputSlots,
    pub resonance: InputSlots,
    pub drive: InputSlots,
}

impl Inputs {
    /// The sources of each input: for each control input those of its last
    /// entry in `inputs`, and the slot of the last spectrum input.
    pub fn from_slots(inputs: &[InputSlots], spectral_inputs: &[SpectralInputSlot]) -> (r: Self)
        ensures
            r.spectrum == spectral_slot_for(spectral_inputs@, Input::Spectrum),
            r.cutoff.input_type == Input::Cutoff,
            r.cutoff.slots@ == sources_for(inputs@, Input::Cutoff),
            r.resonance.input_type == Input::Resonance,
            r.resonance.slots@ == sources_for(inputs@, Input::Resonance),
            r.drive.input_type == Input::Drive,
            r.drive.slots@ == sources_for(inputs@, Input::Drive),
    {
        Inputs {
            spectrum: spectral_slot(spectral_inputs, Input::Spectrum),
            cutoff: slots_for(inputs, Input::Cutoff),
            resonance: slots_for(inputs, Input::Resonance),
            drive: slots_for(inputs, Input::Drive),
        }
    }

    /// Sets the amount of the source in arena slot `src_slot` of control input `input_type`.
    pub fn update_amount(&mut self, input_type: Input, src_slot: usize, amount: StereoSample)
        ensures
            final(self).spectrum == old(self).spectrum,
            final(self).cutoff.input_type == old(self).cutoff.input_type,
            final(self).resonance.input_type == old(self).resonance.input_type,
            final(self).drive.input_type == old(self).drive.input_type,
            final(self).cutoff.slots@ == if input_type == Input::Cutoff {
                slots_with_amount(old(self).cutoff.slots@, src_slot, amount)
            } else {
                old(self).cutoff.slots@
            },
            final(self).resonance.slots@ == if input_type == Input::Resonance {
                slots_with_amount(old(self).resonance.slots@, src_slot, amount)
            } else {
                old(self).resonance.slots@
            },
            final(self).drive.slots@ == if input_type == Input::Drive {
                slots_with_amount(old(self).drive.slots@, src_slot, amount)
            } else {
                old(self).drive.slots@
            },
    {
        match input_type {
            Input::Cutoff => self.cutoff.update_amount(src_slot, amount),
            Input::Resonance => self.resonance.update_amount(src_slot, amount),
            Input::Drive => self.drive.update_amount(src_slot, amount),
            _ => {},
        }
    }
}

} // verus!
