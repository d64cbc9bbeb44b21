use vstd::prelude::*;

use crate::modules::inputs::{first_source_for, first_source_slot, slots_for, sources_for};
use crate::routing::{slots_with_amount, DataType, Input, InputMeta, InputSlots};
use crate::stereo_sample::StereoSample;

verus! {

/// The transfer curve of the wave shaper.
#[derive(Debug, Default, Clone, Copy, PartialEq, Eq, Structural)]
pub enum ShaperType {
    #[default]
    HardClip,
    Sigmoid,
}

/// The inputs the wave shaper exposes, in the order the editor lists them.
pub fn inputs() -> (r: Vec<InputMeta>)
    ensures
        r@ == seq![
            InputMeta { input_type: Input::Audio, data_type: DataType::Audio, is_direct: false },
            InputMeta { input_type: Input::ClippingLevel, data_type: DataType::Audio, is_direct: false },
            InputMeta { input_type: Input::Distortion, data_type: DataType::Audio, is_direct: false },
        ],
{
    let r = vec![
        InputMeta::audio(Input::Audio),
        InputMeta::audio(Input::ClippingLevel),
        InputMeta::audio(Input::Distortion),
    ];
    assert(r@ =~= seq![
        InputMeta { input_type: Input::Audio, data_type: DataType::Audio, is_direct: false },
        InputMeta { input_type: Input::ClippingLevel, data_type: DataType::Audio, is_direct: false },
        InputMeta { input_type: Input::Distortion, data_type: DataType::Audio, is_direct: false },
    ]);
    r
}

/// Where the wave shaper reads its inputs from.
pub struct Inputs {
    pub audio: Option<usize>,
    pub distortion: InputSlots,
    pub clipping_level: InputSlots,
}

impl Inputs {
    /// The audio comes from the first source of the last audio entry; the
    /// other inputs take the sources of their last entry.
    pub fn from_slots(inputs: &[InputSlots]) -> (r: Self)
        ensures
            r.audio == first_source_for(inputs@, Input::Audio),
            r.distortion.input_type == Input::Distortion,
            r.distortion.slots@ == sources_for(inputs@, Input::Distortion),
            r.clipping_level.input_type == Input::ClippingLevel,
            r.clipping_level.slots@ == sources_for(inputs@, Input::ClippingLevel),
    {
        Inputs {
            audio: first_source_slot(inputs, Input::Audio),
            distortion: slots_for(inputs, Input::Distortion),
            clipping_level: slots_for(inputs, Input::ClippingLevel),
        }
    }

    /// Sets the amount of the source in arena slot `src_slot` of input `input_type`.
    pub fn update_amount(&mut self, input_type: Input, src_slot: usize, amount: StereoSample)
        ensures
            final(self).audio == old(self).audio,
            final(self).distortion.input_type == old(self).distortion.input_type,
            final(self).clipping_level.input_type == old(self).clipping_level.input_type,
            final(self).distortion.slots@ == if input_type == Input::Distortion {
                slots_with_amount(old(self).distortion.slots@, src_slot, amount)
            } else {
                old(self).distortion.slots@
            },
            final(self).clipping_level.slots@ == if input_type == Input::ClippingLevel {
                slots_with_amount(old(self).clipping_level.slots@, src_slot, amount)
            } else {
                old(self).clipping_level.slots@
            },
    {
        match input_type {
            Input::Distortion => self.distortion.update_amount(src_slot, amount),
            Input::ClippingLevel => self.clipping_level.update_amount(src_slot, amount),
            _ => {},
        }
    }
}

} // verus!
